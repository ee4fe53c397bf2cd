//! The accounts of a report as they are set up: from profile names, from a list of
//! access keys, or from a list of roles.

use crate::aws::{text_of, AssumeRoleConfig, StaticCredentials};
use crate::table::NameTable;
use crate::text::{decimal, decimal_text};
use vstd::prelude::*;
use vstd::string::StringExecFns;

verus! {

/// The reference under which the access keys at the place `index` of a list are
/// known: the keys are counted from one.
pub open spec fn label_text(index: nat) -> Seq<char> {
    "credential-"@ + decimal_text(index + 1)
}

/// The reference under which the access keys at the place `index` of a list are known.
pub fn credential_label(index: usize) -> (r: String)
    requires
        index < usize::MAX,
    ensures
        r@ == label_text(index as nat),
{
    let mut label = "credential-".to_owned();
    let number = decimal(index + 1);
    label.append(number.as_str());
    label
}

/// The profiles to report on: those given, or the profile `default` where none is.
pub fn profiles_or_default(profiles: Vec<String>) -> (r: Vec<String>)
    ensures
        profiles@.len() > 0 ==> r == profiles,
        profiles@.len() == 0 ==> r@.len() == 1 && r@[0]@ == "default"@,
{
    if profiles.len() == 0 {
        let mut only: Vec<String> = Vec::new();
        only.push("default".to_owned());
        only
    } else {
        profiles
    }
}

/// One pair of access keys as a list of accounts gives it.
#[derive(Debug, Clone)]
pub struct KeyEntry {
    pub access_key_id: String,
    pub secret_access_key: String,
}

/// One role as a list of accounts gives it, with the reference of its account.
#[derive(Debug, Clone)]
pub struct RoleEntry {
    pub account_ref: String,
    pub role_arn: String,
    pub external_id: Option<String>,
}

/// Whether `keys` are the keys of `entry`, without a session token.
pub open spec fn keys_of(entry: KeyEntry, keys: StaticCredentials) -> bool {
    &&& keys.access_key_id@ == entry.access_key_id@
    &&& keys.secret_access_key@ == entry.secret_access_key@
    &&& keys.session_token is None
}

/// Whether `role` is the role of `entry`.
pub open spec fn role_of(entry: RoleEntry, role: AssumeRoleConfig) -> bool {
    &&& role.role_arn@ == entry.role_arn@
    &&& text_of(role.external_id) == text_of(entry.external_id)
}

/// The place of the last entry of a list of `count` access keys that is known under
/// `name`, or -1 where none is.
pub open spec fn last_labelled(count: nat, name: Seq<char>) -> int
    decreases count,
{
    if count == 0 {
        -1
    } else if label_text((count - 1) as nat) == name {
        count - 1
    } else {
        last_labelled((count - 1) as nat, name)
    }
}

/// The place of the last of `entries` whose account is `name`, or -1 where none is.
pub open spec fn last_named(entries: Seq<RoleEntry>, name: Seq<char>) -> int
    decreases entries.len(),
{
    if entries.len() == 0 {
        -1
    } else if entries.last().account_ref@ == name {
        entries.len() - 1
    } else {
        last_named(entries.drop_last(), name)
    }
}

/// The place of the last entry under a name lies in the list.
pub proof fn lemma_last_labelled(count: nat, name: Seq<char>)
    ensures
        -1 <= last_labelled(count, name) < count,
    decreases count,
{
    if count > 0 {
        lemma_last_labelled((count - 1) as nat, name);
    }
}

/// The place of the last entry for an account lies in the list, and the entry there
/// is one for the account.
pub proof fn lemma_last_named(entries: Seq<RoleEntry>, name: Seq<char>)
    ensures
        -1 <= last_named(entries, name) < entries.len(),
        last_named(entries, name) >= 0 ==> entries[last_named(entries, name)].account_ref@
            == name,
    decreases entries.len(),
{
    if entries.len() > 0 {
        lemma_last_named(entries.drop_last(), name);
    }
}

/// The accounts that a list of access keys stands for: a table of the keys, each under
/// the label of its place, and the labels in the order of the list.
pub fn keyed_accounts(entries: Vec<KeyEntry>) -> (r: (NameTable<StaticCredentials>, Vec<String>))
    ensures
        r.0.wf(),
        r.1@.len() == entries@.len(),
        forall|i: int| 0 <= i < entries@.len() ==> (#[trigger] r.1@[i])@ == label_text(i as nat),
        forall|name: Seq<char>| #[trigger]
            r.0.has(name) <==> last_labelled(entries@.len(), name) >= 0,
        forall|name: Seq<char>|
            r.0.has(name) ==> last_labelled(entries@.len(), name) < entries@.len() && keys_of(
                entries@[last_labelled(entries@.len(), name)],
                #[trigger] r.0.value_of(name),
            ),
{
    let n = entries.len();
    let mut table: NameTable<StaticCredentials> = NameTable::new();
    let mut labels: Vec<String> = Vec::new();
    let mut i: usize = 0;
    while i < n
        invariant
            n == entries@.len(),
            i <= n,
            table.wf(),
            labels@.len() == i,
            forall|k: int| 0 <= k < i ==> (#[trigger] labels@[k])@ == label_text(k as nat),
            forall|name: Seq<char>| #[trigger]
                table.has(name) <==> last_labelled(i as nat, name) >= 0,
            forall|name: Seq<char>|
                table.has(name) ==> keys_of(
                    entries@[last_labelled(i as nat, name)],
                    #[trigger] table.value_of(name),
                ),
        decreases n - i,
    {
        let label = credential_label(i);
        let keys = StaticCredentials {
            access_key_id: entries[i].access_key_id.clone(),
            secret_access_key: entries[i].secret_access_key.clone(),
            session_token: None,
        };
        labels.push(label.clone());
        let ghost before = table;
        table.insert(label, keys);
        proof {
            assert forall|name: Seq<char>| #[trigger]
                table.has(name) <==> last_labelled((i + 1) as nat, name) >= 0 by {
                assert(table@.dom().contains(name) == table.has(name));
                assert(before@.dom().contains(name) == before.has(name));
            }
            assert forall|name: Seq<char>| table.has(name) implies keys_of(
                entries@[last_labelled((i + 1) as nat, name)],
                #[trigger] table.value_of(name),
            ) by {
                assert(table@.dom().contains(name));
                assert(table@[name] == table.value_of(name));
                if name != label_text(i as nat) {
                    assert(before@.dom().contains(name));
                    assert(before@[name] == before.value_of(name));
                }
            }
        }
        i += 1;
    }
    proof {
        assert forall|name: Seq<char>| last_labelled(n as nat, name) < n by {
            lemma_last_labelled(n as nat, name);
        }
    }
    (table, labels)
}

/// The accounts that a list of roles stands for: a table of the roles, each under the
/// reference of its account, where the last role given for an account is the one that
/// counts; and the references in the order of the list.
pub fn role_accounts(entries: Vec<RoleEntry>) -> (r: (NameTable<AssumeRoleConfig>, Vec<String>))
    ensures
        r.0.wf(),
        r.1@.len() == entries@.len(),
        forall|i: int|
            0 <= i < entries@.len() ==> (#[trigger] r.1@[i])@ == entries@[i].account_ref@,
        forall|name: Seq<char>| #[trigger] r.0.has(name) <==> last_named(entries@, name) >= 0,
        forall|name: Seq<char>|
            r.0.has(name) ==> last_named(entries@, name) < entries@.len() && role_of(
                entries@[last_named(entries@, name)],
                #[trigger] r.0.value_of(name),
            ),
{
    let n = entries.len();
    let mut table: NameTable<AssumeRoleConfig> = NameTable::new();
    let mut refs: Vec<String> = Vec::new();
    let mut i: usize = 0;
    while i < n
        invariant
            n == entries@.len(),
            i <= n,
            table.wf(),
            refs@.len() == i,
            forall|k: int| 0 <= k < i ==> (#[trigger] refs@[k])@ == entries@[k].account_ref@,
            forall|name: Seq<char>| #[trigger]
                table.has(name) <==> last_named(entries@.take(i as int), name) >= 0,
            forall|name: Seq<char>|
                table.has(name) ==> role_of(
                    entries@[last_named(entries@.take(i as int), name)],
                    #[trigger] table.value_of(name),
                ),
        decreases n - i,
    {
        let account_ref = entries[i].account_ref.clone();
        let role = AssumeRoleConfig {
            role_arn: entries[i].role_arn.clone(),
            external_id: crate::aws::copy_of(&entries[i].external_id),
        };
        refs.push(account_ref.clone());
        let ghost before = table;
        table.insert(account_ref, role);
        proof {
            assert(entries@.take(i + 1).drop_last() =~= entries@.take(i as int));
            assert(entries@.take(i + 1).last() == entries@[i as int]);
            assert forall|name: Seq<char>| #[trigger]
                table.has(name) <==> last_named(entries@.take(i + 1), name) >= 0 by {
                assert(table@.dom().contains(name) == table.has(name));
                assert(before@.dom().contains(name) == before.has(name));
            }
            assert forall|name: Seq<char>| table.has(name) implies role_of(
                entries@[last_named(entries@.take(i + 1), name)],
                #[trigger] table.value_of(name),
            ) by {
                assert(table@.dom().contains(name));
                assert(table@[name] == table.value_of(name));
                if name != entries@[i as int].account_ref@ {
                    assert(before@.dom().contains(name));
                    assert(before@[name] == before.value_of(name));
                }
            }
        }
        i += 1;
    }
    proof {
        assert(entries@.take(n as int) =~= entries@);
        assert forall|name: Seq<char>| last_named(entries@, name) < n by {
            lemma_last_named(entries@, name);
        }
    }
    (table, refs)
}

} // verus!

//! A store of primitive values under keys, with a rule on who may write to it.

use crate::error::ContractError;
use crate::msg::MessageInfo;
use crate::order::{
    ascending, key_equal, key_less, key_lt, lemma_key_lt_irreflexive, lemma_key_lt_total,
    lemma_key_lt_transitive,
};
use crate::primitive::{
    ExecuteMsg, GetValueResponse, InstantiateMsg, Primitive, PrimitiveRestriction, PrimitiveView,
};
use crate::tokens::{lemma_rank, lemma_rank_of_member, lemma_with_key, lemma_without_key, rank};
use vstd::prelude::*;

verus! {

/// A value, the key that it is kept under, and who put the key there.
pub struct EntryView {
    pub key: Seq<char>,
    pub owner: Seq<char>,
    pub value: PrimitiveView,
}

/// What a [`PrimitiveStore`] stands for.
pub struct PrimitiveStoreView {
    pub owner: Seq<char>,
    pub restriction: PrimitiveRestriction,
    /// The entries, keys ascending.
    pub entries: Seq<EntryView>,
}

/// The keys of the entries, in their order.
pub open spec fn entry_keys(entries: Seq<EntryView>) -> Seq<Seq<char>> {
    entries.map_values(|e: EntryView| e.key)
}

/// The key that is meant: the one given, or the default key.
pub open spec fn key_or_default(key: Option<Seq<char>>) -> Seq<char> {
    match key {
        Some(key) => key,
        None => "default"@,
    }
}

/// Whether `sender` may set or delete what is under `key`. The owner of the store
/// may always. Others may not in a private store, may in a public one, and in a
/// restricted one may unless somebody else put the key there.
pub open spec fn may_alter(s: PrimitiveStoreView, sender: Seq<char>, key: Seq<char>) -> bool {
    let at = rank(entry_keys(s.entries), key);
    sender == s.owner || match s.restriction {
        PrimitiveRestriction::Private => false,
        PrimitiveRestriction::Public => true,
        PrimitiveRestriction::Restricted => entry_keys(s.entries).contains(key) ==> s.entries[at].owner
            == sender,
    }
}

/// The entries with `value` under `key`: in place of the value that was there, with
/// the key staying whose it was, or as a new entry of `sender`.
pub open spec fn with_value(entries: Seq<EntryView>, key: Seq<char>, sender: Seq<char>, value: PrimitiveView) -> Seq<EntryView> {
    let at = rank(entry_keys(entries), key);
    if entry_keys(entries).contains(key) {
        entries.update(at, EntryView { key, owner: entries[at].owner, value })
    } else {
        entries.insert(at, EntryView { key, owner: sender, value })
    }
}

/// The entries without the one under `key`.
pub open spec fn without_value(entries: Seq<EntryView>, key: Seq<char>) -> Seq<EntryView> {
    if entry_keys(entries).contains(key) {
        entries.remove(rank(entry_keys(entries), key))
    } else {
        entries
    }
}

/// What a command comes to: success or an error, and the store after it. Setting
/// and deleting take the permission of [`may_alter`]; only the owner changes the
/// restriction. A command that fails changes nothing.
pub open spec fn executed(s: PrimitiveStoreView, sender: Seq<char>, msg: ExecuteMsg) -> (
    Result<(), ContractError>,
    PrimitiveStoreView,
) {
    match msg {
        ExecuteMsg::SetValue { key, value } => {
            let key = key_or_default(key.deep_view());
            if may_alter(s, sender, key) {
                (
                    Ok(()),
                    PrimitiveStoreView {
                        entries: with_value(s.entries, key, sender, value@),
                        ..s
                    },
                )
            } else {
                (Err(ContractError::Unauthorized), s)
            }
        },
        ExecuteMsg::DeleteValue { key } => {
            let key = key_or_default(key.deep_view());
            if may_alter(s, sender, key) {
                (Ok(()), PrimitiveStoreView { entries: without_value(s.entries, key), ..s })
            } else {
                (Err(ContractError::Unauthorized), s)
            }
        },
        ExecuteMsg::UpdateRestriction { restriction } => if sender == s.owner {
            (Ok(()), PrimitiveStoreView { restriction, ..s })
        } else {
            (Err(ContractError::Unauthorized), s)
        },
    }
}

/// The keys of the entries that `owner` put there, in their order.
pub open spec fn keys_of(entries: Seq<EntryView>, owner: Seq<char>) -> Seq<Seq<char>>
    decreases entries.len(),
{
    if entries.len() == 0 {
        Seq::empty()
    } else if entries.last().owner == owner {
        keys_of(entries.drop_last(), owner).push(entries.last().key)
    } else {
        keys_of(entries.drop_last(), owner)
    }
}

#[derive(Debug, Clone, PartialEq, Eq)]
struct Entry {
    key: String,
    owner: String,
    value: Primitive,
}

impl DeepView for Entry {
    type V = EntryView;

    closed spec fn deep_view(&self) -> EntryView {
        EntryView { key: self.key@, owner: self.owner@, value: self.value@ }
    }
}

/// A store of primitive values.
#[derive(Debug, Clone, PartialEq, Eq)]
pub struct PrimitiveStore {
    owner: String,
    restriction: PrimitiveRestriction,
    entries: Vec<Entry>,
}

impl View for PrimitiveStore {
    type V = PrimitiveStoreView;

    closed spec fn view(&self) -> PrimitiveStoreView {
        PrimitiveStoreView {
            owner: self.owner@,
            restriction: self.restriction,
            entries: self.entries.deep_view(),
        }
    }
}

/// The key that is meant: the one given, or the default key.
fn get_key_or_default(key: &Option<String>) -> (r: String)
    ensures
        r@ == key_or_default(key.deep_view()),
{
    match key {
        Some(key) => key.clone(),
        None => "default".to_owned(),
    }
}

impl PrimitiveStore {
    /// The keys are in strictly ascending order, so none occurs twice.
    pub open spec fn wf(&self) -> bool {
        ascending(entry_keys(self@.entries))
    }

    /// Sets a store up: the caller owns it, and it holds nothing.
    pub fn instantiate(info: &MessageInfo, msg: InstantiateMsg) -> (r: Self)
        ensures
            r.wf(),
            r@ == (PrimitiveStoreView {
                owner: info@.sender,
                restriction: msg.restriction,
                entries: Seq::empty(),
            }),
    {
        let r = PrimitiveStore {
            owner: info.sender.clone(),
            restriction: msg.restriction,
            entries: Vec::new(),
        };
        assert(r@.entries =~= Seq::<EntryView>::empty());
        assert(entry_keys(r@.entries) =~= Seq::<Seq<char>>::empty());
        r
    }

    /// Who may write to the store.
    pub fn restriction(&self) -> (r: PrimitiveRestriction)
        ensures
            r == self@.restriction,
    {
        self.restriction
    }

    /// Where `key` stands or belongs among the entries, and whether it stands there.
    fn find(&self, key: &str) -> (r: (usize, bool))
        requires
            self.wf(),
        ensures
            r.0 == rank(entry_keys(self@.entries), key@),
            r.0 <= self@.entries.len(),
            r.1 == entry_keys(self@.entries).contains(key@),
            r.1 ==> r.0 < self@.entries.len() && self@.entries[r.0 as int].key == key@,
    {
        let ghost keys = entry_keys(self@.entries);
        let mut i: usize = 0;
        while i < self.entries.len() && key_less(self.entries[i].key.as_str(), key)
            invariant
                i <= self.entries.len(),
                self@.entries.len() == self.entries.len(),
                keys == entry_keys(self@.entries),
                forall|j: int| 0 <= j < i ==> key_lt(keys[j], key@),
            decreases self.entries.len() - i,
        {
            i += 1;
        }
        proof {
            assert(i < self.entries.len() ==> keys[i as int] == self.entries[i as int].key@);
            lemma_rank(keys, key@, i as int);
        }
        if i < self.entries.len() && key_equal(self.entries[i].key.as_str(), key) {
            assert(keys[i as int] == key@);
            (i, true)
        } else {
            proof {
                assert forall|j: int| 0 <= j < keys.len() implies keys[j] != key@ by {
                    lemma_key_lt_irreflexive(key@);
                    if j >= i {
                        lemma_key_lt_total(key@, keys[i as int]);
                        if j > i {
                            lemma_key_lt_transitive(key@, keys[i as int], keys[j]);
                        }
                    }
                }
            }
            (i, false)
        }
    }

    /// Whether `sender` may set or delete what is under `key`; see [`may_alter`].
    pub fn has_key_permission(&self, sender: &str, key: &str) -> (r: bool)
        requires
            self.wf(),
        ensures
            r == may_alter(self@, sender@, key@),
    {
        if key_equal(sender, self.owner.as_str()) {
            return true;
        }
        match self.restriction {
            PrimitiveRestriction::Private => false,
            PrimitiveRestriction::Public => true,
            PrimitiveRestriction::Restricted => {
                let (at, found) = self.find(key);
                if found {
                    key_equal(self.entries[at].owner.as_str(), sender)
                } else {
                    true
                }
            },
        }
    }

    /// Carries a command out; see [`executed`].
    pub fn execute(&mut self, info: &MessageInfo, msg: ExecuteMsg) -> (r: Result<(), ContractError>)
        requires
            old(self).wf(),
        ensures
            final(self).wf(),
            (r, final(self)@) == executed(old(self)@, info@.sender, msg),
    {
        let ghost s = self@;
        let ghost keys = entry_keys(s.entries);
        match msg {
            ExecuteMsg::SetValue { key, value } => {
                let key = get_key_or_default(&key);
                if !self.has_key_permission(info.sender.as_str(), key.as_str()) {
                    return Err(ContractError::Unauthorized);
                }
                let (at, found) = self.find(key.as_str());
                proof {
                    lemma_with_key(keys, key@);
                }
                if found {
                    let owner = self.entries[at].owner.clone();
                    self.entries.set(at, Entry { key, owner, value });
                    assert(self@.entries =~= with_value(s.entries, key@, info@.sender, value@));
                    assert(entry_keys(self@.entries) =~= keys);
                } else {
                    self.entries.insert(at, Entry { key, owner: info.sender.clone(), value });
                    assert(self@.entries =~= with_value(s.entries, key@, info@.sender, value@));
                    assert(entry_keys(self@.entries) =~= keys.insert(at as int, key@));
                }
                Ok(())
            },
            ExecuteMsg::DeleteValue { key } => {
                let key = get_key_or_default(&key);
                if !self.has_key_permission(info.sender.as_str(), key.as_str()) {
                    return Err(ContractError::Unauthorized);
                }
                let (at, found) = self.find(key.as_str());
                proof {
                    lemma_without_key(keys, key@);
                }
                if found {
                    self.entries.remove(at);
                    assert(self@.entries =~= without_value(s.entries, key@));
                    assert(entry_keys(self@.entries) =~= keys.remove(at as int));
                }
                Ok(())
            },
            ExecuteMsg::UpdateRestriction { restriction } => {
                if !key_equal(info.sender.as_str(), self.owner.as_str()) {
                    return Err(ContractError::Unauthorized);
                }
                self.restriction = restriction;
                Ok(())
            },
        }
    }

    /// The value under the key, or under the default key where none is given; an
    /// error where nothing is kept there.
    pub fn query_value(&self, key: &Option<String>) -> (r: Result<GetValueResponse, ContractError>)
        requires
            self.wf(),
        ensures
            ({
                let k = key_or_default(key.deep_view());
                let keys = entry_keys(self@.entries);
                if keys.contains(k) {
                    r is Ok && r->Ok_0.key@ == k && r->Ok_0.value@ == self@.entries[rank(
                        keys,
                        k,
                    )].value
                } else {
                    r == Err::<GetValueResponse, ContractError>(ContractError::NotFound)
                }
            }),
    {
        let key = get_key_or_default(key);
        let (at, found) = self.find(key.as_str());
        if found {
            Ok(GetValueResponse { key, value: self.entries[at].value.clone() })
        } else {
            Err(ContractError::NotFound)
        }
    }

    /// All keys, ascending.
    pub fn all_keys(&self) -> (r: Vec<String>)
        ensures
            r.deep_view() == entry_keys(self@.entries),
    {
        let mut keys: Vec<String> = Vec::new();
        let mut i: usize = 0;
        while i < self.entries.len()
            invariant
                i <= self.entries.len(),
                keys.len() == i,
                forall|j: int| 0 <= j < i ==> keys[j]@ == self.entries[j].key@,
            decreases self.entries.len() - i,
        {
            keys.push(self.entries[i].key.clone());
            i += 1;
        }
        assert(keys.deep_view() =~= entry_keys(self@.entries));
        keys
    }

    /// The keys that `owner` put there, ascending.
    pub fn owner_keys(&self, owner: &str) -> (r: Vec<String>)
        ensures
            r.deep_view() == keys_of(self@.entries, owner@),
    {
        let ghost entries = self@.entries;
        let mut keys: Vec<String> = Vec::new();
        let mut i: usize = 0;
        assert(entries.take(0) =~= Seq::<EntryView>::empty());
        assert(keys.deep_view() =~= Seq::<Seq<char>>::empty());
        while i < self.entries.len()
            invariant
                i <= self.entries.len(),
                entries == self@.entries,
                entries.len() == self.entries.len(),
                keys.deep_view() == keys_of(entries.take(i as int), owner@),
            decreases self.entries.len() - i,
        {
            proof {
                assert(entries.take(i + 1).drop_last() =~= entries.take(i as int));
                assert(entries.take(i + 1).last() == self.entries[i as int].deep_view());
            }
            if key_equal(self.entries[i].owner.as_str(), owner) {
                let ghost before = keys.deep_view();
                keys.push(self.entries[i].key.clone());
                assert(keys.deep_view() =~= before.push(self.entries[i as int].key@));
            }
            i += 1;
        }
        assert(entries.take(self.entries.len() as int) =~= entries);
        keys
    }
}

} // verus!

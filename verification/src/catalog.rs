//! The catalog of mintable items, keyed by item identifier.

use vstd::prelude::*;
use crate::text::{lemma_first_index, lemma_no_index, option_view, same_text};

verus! {

/// What a creator submits to mint an item.
#[derive(Debug, PartialEq, Eq)]
pub struct SongCreation {
    pub token_id: String,
    pub name: String,
    pub description: String,
    pub extra: Option<String>,
    pub price: u128,
}

/// A submission as plain values.
pub struct SongCreationView {
    pub token_id: Seq<char>,
    pub name: Seq<char>,
    pub description: Seq<char>,
    pub extra: Option<Seq<char>>,
    pub price: u128,
}

impl View for SongCreation {
    type V = SongCreationView;

    open spec fn view(&self) -> SongCreationView {
        SongCreationView {
            token_id: self.token_id@,
            name: self.name@,
            description: self.description@,
            extra: option_view(self.extra),
            price: self.price,
        }
    }
}

/// An item of the catalog: a submission and the account that made it.
#[derive(Debug, PartialEq, Eq)]
pub struct SimpleNonFungibleToken {
    pub token_id: String,
    pub name: String,
    pub description: String,
    pub extra: Option<String>,
    pub price: u128,
    pub creator: String,
}

/// An item as plain values.
pub struct ItemView {
    pub token_id: Seq<char>,
    pub name: Seq<char>,
    pub description: Seq<char>,
    pub extra: Option<Seq<char>>,
    pub price: u128,
    pub creator: Seq<char>,
}

impl View for SimpleNonFungibleToken {
    type V = ItemView;

    open spec fn view(&self) -> ItemView {
        ItemView {
            token_id: self.token_id@,
            name: self.name@,
            description: self.description@,
            extra: option_view(self.extra),
            price: self.price,
            creator: self.creator@,
        }
    }
}

impl Clone for SimpleNonFungibleToken {
    fn clone(&self) -> (copy: Self)
        ensures
            copy == *self,
    {
        SimpleNonFungibleToken {
            token_id: self.token_id.clone(),
            name: self.name.clone(),
            description: self.description.clone(),
            extra: self.extra.clone(),
            price: self.price,
            creator: self.creator.clone(),
        }
    }
}

/// The item that `creator` mints from the submission `data`.
pub open spec fn minted_item(data: SongCreationView, creator: Seq<char>) -> ItemView {
    ItemView {
        token_id: data.token_id,
        name: data.name,
        description: data.description,
        extra: data.extra,
        price: data.price,
        creator,
    }
}

/// The items of the ledger. Its view is the map from item identifier to
/// item; every item stands under its own identifier.
pub struct Catalog {
    /// The items, oldest first; of two under one identifier the first counts.
    pub items: Vec<SimpleNonFungibleToken>,
}

impl View for Catalog {
    type V = Map<Seq<char>, ItemView>;

    open spec fn view(&self) -> Map<Seq<char>, ItemView> {
        Map::new(
            |id: Seq<char>| self.ids().contains(id),
            |id: Seq<char>| self.items@[self.ids().index_of_first(id).unwrap()]@,
        )
    }
}

impl Catalog {
    /// The identifiers of the stored items, in storage order.
    pub open spec fn ids(&self) -> Seq<Seq<char>> {
        Seq::new(self.items@.len(), |i: int| self.items@[i].token_id@)
    }

    /// Every item of the catalog stands under its own identifier.
    pub proof fn lemma_keys_match(&self, id: Seq<char>)
        requires
            self@.contains_key(id),
        ensures
            self@[id].token_id == id,
    {
        self.ids().index_of_first_ensures(id);
    }

    /// A catalog without items.
    pub fn new() -> (catalog: Catalog)
        ensures
            catalog@ == Map::<Seq<char>, ItemView>::empty(),
    {
        let catalog = Catalog { items: Vec::new() };
        catalog
    }

    /// Where the item under `key` is stored, if there is one.
    fn position(&self, key: &String) -> (at: Option<usize>)
        ensures
            match at {
                Some(i) => i < self.items@.len() && self.ids().index_of_first(key@) == Some(
                    i as int,
                ),
                None => !self.ids().contains(key@),
            },
    {
        let mut i: usize = 0;
        while i < self.items.len()
            invariant
                i <= self.items@.len(),
                forall|j: int| 0 <= j < i ==> self.ids()[j] != key@,
            decreases self.items@.len() - i,
        {
            if same_text(&self.items[i].token_id, key) {
                proof {
                    lemma_first_index(self.ids(), key@, i as int);
                }
                return Some(i);
            }
            i += 1;
        }
        proof {
            lemma_no_index(self.ids(), key@);
        }
        None
    }

    /// Stores `item` under its identifier, in place of the item that stood
    /// there, if any.
    pub fn put(&mut self, item: SimpleNonFungibleToken)
        ensures
            final(self)@ == old(self)@.insert(item.token_id@, item@),
    {
        let ghost id = item.token_id@;
        let ghost shown = item@;
        let ghost before = *self;
        match self.position(&item.token_id) {
            Some(i) => {
                self.items.set(i, item);
                proof {
                    before.ids().index_of_first_ensures(id);
                    assert(self.ids() =~= before.ids());
                    assert forall|k: Seq<char>| self.ids().contains(k) implies #[trigger] self@[k]
                        == before@.insert(id, shown)[k] by {
                        self.ids().index_of_first_ensures(k);
                    }
                }
            },
            None => {
                self.items.push(item);
                proof {
                    let grown = self.ids();
                    assert(grown =~= before.ids().push(id));
                    assert forall|k: Seq<char>| grown.contains(k) <==> before.ids().contains(k)
                        || k == id by {
                        if before.ids().contains(k) {
                            let j = choose|j: int|
                                0 <= j < before.ids().len() && before.ids()[j] == k;
                            assert(grown[j] == k);
                        }
                        if k == id {
                            assert(grown[grown.len() - 1] == k);
                        }
                    }
                    assert forall|k: Seq<char>| grown.contains(k) implies #[trigger] self@[k]
                        == before@.insert(id, shown)[k] by {
                        if k == id {
                            lemma_first_index(grown, id, grown.len() - 1);
                        } else {
                            before.ids().index_of_first_ensures(k);
                            let j = before.ids().index_of_first(k).unwrap();
                            lemma_first_index(grown, k, j);
                        }
                    }
                }
            },
        }
    }

    /// The item under `token_id`, if the catalog holds one.
    pub fn get(&self, token_id: &str) -> (found: Option<SimpleNonFungibleToken>)
        ensures
            match found {
                Some(item) => self@.contains_key(token_id@) && item@ == self@[token_id@]
                    && item.token_id@ == token_id@,
                None => !self@.contains_key(token_id@),
            },
    {
        let key = token_id.to_owned();
        match self.position(&key) {
            Some(i) => {
                proof {
                    self.ids().index_of_first_ensures(key@);
                }
                Some(self.items[i].clone())
            },
            None => None,
        }
    }
}

} // verus!

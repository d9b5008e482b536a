//! The refresh tokens of the connected accounts, one per e-mail address.
use vstd::prelude::*;
use vstd::string::StringExecFns;
use crate::table::{
    Row, has_key, lemma_retain_step, lemma_table_at, lemma_table_empty, lemma_table_push,
    lemma_table_update, lemma_take_all, table, unique_keys,
};

verus! {

/// The refresh token of one account.
pub struct TokenRow {
    pub email: String,
    pub token: String,
}

impl View for TokenRow {
    type V = Seq<char>;

    /// What a token row holds: the token.
    open spec fn view(&self) -> Seq<char> {
        self.token@
    }
}

impl Row for TokenRow {
    type Key = Seq<char>;

    open spec fn key(&self) -> Seq<char> {
        self.email@
    }
}

/// All stored refresh tokens.
pub struct TokenStore {
    pub rows: Vec<TokenRow>,
}

impl View for TokenStore {
    type V = Map<Seq<char>, Seq<char>>;

    /// The tokens as a map from e-mail address to token.
    open spec fn view(&self) -> Map<Seq<char>, Seq<char>> {
        table(self.rows@)
    }
}

impl TokenStore {
    /// Each address has at most one token.
    pub open spec fn well_formed(&self) -> bool {
        unique_keys(self.rows@)
    }

    /// A store with no tokens.
    pub fn new() -> (s: TokenStore)
        ensures
            s.well_formed(),
            s@ == Map::<Seq<char>, Seq<char>>::empty(),
    {
        let s = TokenStore { rows: Vec::new() };
        proof {
            lemma_table_empty(s.rows@);
        }
        s
    }
}

fn find_token(rows: &Vec<TokenRow>, email: &String) -> (r: Option<usize>)
    ensures
        r matches Some(i) ==> i < rows@.len() && rows@[i as int].key() == email@,
        r is None ==> !has_key(rows@, email@),
{
    let mut i: usize = 0;
    while i < rows.len()
        invariant
            i <= rows@.len(),
            forall|j: int| 0 <= j < i ==> rows@[j].key() != email@,
        decreases rows@.len() - i,
    {
        if rows[i].email == *email {
            return Some(i);
        }
        i = i + 1;
    }
    None
}

/// Stores the refresh token of `email`, replacing any earlier one.
pub fn save_refresh_token(store: &mut TokenStore, email: &str, token: &str)
    requires
        old(store).well_formed(),
    ensures
        final(store).well_formed(),
        final(store)@ == old(store)@.insert(email@, token@),
{
    let e = String::from_str(email);
    let row = TokenRow { email: String::from_str(email), token: String::from_str(token) };
    match find_token(&store.rows, &e) {
        Some(i) => {
            proof {
                lemma_table_update(store.rows@, i as int, row);
            }
            store.rows.set(i, row);
        },
        None => {
            proof {
                lemma_table_push(store.rows@, row);
            }
            store.rows.push(row);
        },
    }
}

/// The refresh token of `email`, if one is stored.
pub fn get_refresh_token(store: &TokenStore, email: &str) -> (r: Option<String>)
    requires
        store.well_formed(),
    ensures
        r is Some <==> store@.contains_key(email@),
        r matches Some(t) ==> t@ == store@[email@],
{
    let e = String::from_str(email);
    match find_token(&store.rows, &e) {
        Some(i) => {
            proof {
                lemma_table_at(store.rows@, i as int);
            }
            Some(store.rows[i].token.clone())
        },
        None => None,
    }
}

/// Forgets the refresh token of `email` (nothing happens if there is none).
pub fn delete_refresh_token(store: &mut TokenStore, email: &str)
    requires
        old(store).well_formed(),
    ensures
        final(store).well_formed(),
        final(store)@ == old(store)@.remove(email@),
{
    let e = String::from_str(email);
    let ghost keep = Set::new(|k: Seq<char>| k != email@);
    let ghost rows = store.rows@;
    let mut out: Vec<TokenRow> = Vec::new();
    let mut i: usize = 0;
    proof {
        lemma_table_empty(out@);
        assert(table(rows.take(0)) =~= Map::<Seq<char>, Seq<char>>::empty());
        assert(table(out@) =~= table(rows.take(0)).restrict(keep));
    }
    while i < store.rows.len()
        invariant
            i <= store.rows@.len(),
            rows == store.rows@,
            unique_keys(rows),
            unique_keys(out@),
            e@ == email@,
            table(out@) == table(rows.take(i as int)).restrict(keep),
            keep == Set::new(|k: Seq<char>| k != email@),
        decreases store.rows@.len() - i,
    {
        let row = &store.rows[i];
        proof {
            lemma_retain_step(rows, i as int, out@, keep);
        }
        if !(row.email == e) {
            out.push(TokenRow { email: row.email.clone(), token: row.token.clone() });
        }
        i = i + 1;
    }
    proof {
        lemma_take_all(rows);
    }
    assert(table(rows).restrict(keep) =~= table(rows).remove(email@));
    store.rows = out;
}

} // verus!

//! Owners, inventory records, the case-folded name match and the merged,
//! filtered view over every owner's collection.

use vstd::prelude::*;
use crate::text::{
    byte_len, contains_chars, decimal, digit_char, is_substring, lemma_append_decimal_bytes,
    lemma_byte_len_push, lemma_decimal_len_u64, push_char, push_decimal,
};

verus! {

/// The fixed set of collection owners, in the order in which they are shown.
#[derive(Debug, Clone, Copy, PartialEq, Eq, Hash)]
pub enum User {
    Strosel,
    Amon8808,
}

/// Number of owners.
pub const OWNER_COUNT: usize = 2;

/// Every owner, in display order.
pub open spec fn all_users() -> Seq<User> {
    seq![User::Strosel, User::Amon8808]
}

impl User {
    /// The owner's account number at the collection service.
    pub open spec fn spec_id(self) -> u32 {
        match self {
            User::Strosel => 331139,
            User::Amon8808 => 324351,
        }
    }

    /// The owner's display name.
    pub open spec fn spec_name(self) -> Seq<char> {
        match self {
            User::Strosel => "Strosel"@,
            User::Amon8808 => "Amon8808"@,
        }
    }

    pub fn id(&self) -> (r: u32)
        ensures
            r == self.spec_id(),
    {
        match self {
            User::Strosel => 331139,
            User::Amon8808 => 324351,
        }
    }

    pub fn name(&self) -> (r: String)
        ensures
            r@ == self.spec_name(),
    {
        match self {
            User::Strosel => String::from_str("Strosel"),
            User::Amon8808 => String::from_str("Amon8808"),
        }
    }

    /// Every owner, in display order.
    pub fn all() -> (r: Vec<User>)
        ensures
            r@ == all_users(),
    {
        let r = vec![User::Strosel, User::Amon8808];
        proof {
            assert(r@ =~= all_users());
        }
        r
    }
}

/// One inventory line. The price is held in euro cents.
#[derive(Debug, Clone)]
pub struct Entry {
    pub quantity: u8,
    pub name: String,
    pub set: String,
    pub multiverse: String,
    pub scryfall: String,
    pub price_cents: u64,
}

/// The records of one owner, in stored order.
pub type Collection = Vec<Entry>;

/// Case folding of a text, as `str::to_lowercase` performs it.
pub uninterp spec fn lower_of(s: Seq<char>) -> Seq<char>;

/// Relies on `str::to_lowercase`: the result depends on the characters alone,
/// and an empty text stays empty.
#[verifier::external_body]
fn lowercase(s: &str) -> (r: String)
    ensures
        r@ == lower_of(s@),
        s@.len() == 0 ==> r@.len() == 0,
{
    s.to_lowercase()
}

/// Whether a record with this name is kept under this search text.
pub open spec fn name_matches(name: Seq<char>, search: Seq<char>) -> bool {
    is_substring(lower_of(search), lower_of(name))
}

/// Price text: whole euros, a point, two digits of cents, the euro sign.
pub open spec fn price_text(cents: nat) -> Seq<char> {
    decimal(cents / 100).push('.').push(digit_char((cents % 100) / 10)).push(
        digit_char(cents % 10),
    ).push('€')
}

/// Matching on names that are already case-folded: the folded search text
/// occurs in the folded name.
pub fn matches_folded(folded_name: &str, folded_search: &str) -> (r: bool)
    ensures
        r == is_substring(folded_search@, folded_name@),
{
    contains_chars(folded_name, folded_search)
}

impl Entry {
    /// The record's table cells: owner, quantity, name, set code, the two
    /// identifiers and the price.
    pub fn as_row(&self, owner: User) -> (r: Vec<String>)
        ensures
            r@.len() == 7,
            r@[0]@ == owner.spec_name(),
            r@[1]@ == decimal(self.quantity as nat),
            r@[2]@ == self.name@,
            r@[3]@ == self.set@,
            r@[4]@ == self.multiverse@,
            r@[5]@ == self.scryfall@,
            r@[6]@ == price_text(self.price_cents as nat),
    {
        let mut quantity = String::new();
        proof {
            assert(byte_len(quantity@) == 0) by {
                assert(quantity@ =~= Seq::<char>::empty());
            }
        }
        proof {
            lemma_decimal_len_u64(self.quantity as u64);
        }
        push_decimal(&mut quantity, self.quantity as u64);
        let mut price = String::new();
        let ghost start = price@;
        proof {
            assert(byte_len(price@) == 0) by {
                assert(price@ =~= Seq::<char>::empty());
            }
        }
        let euros = self.price_cents / 100;
        proof {
            lemma_decimal_len_u64(euros);
        }
        push_decimal(&mut price, euros);
        let cents = (self.price_cents % 100) as u8;
        let tens = (48u8 + cents / 10) as char;
        let ones = (48u8 + cents % 10) as char;
        proof {
            lemma_append_decimal_bytes(start, euros as nat);
            lemma_byte_len_push(price@, '.');
            lemma_byte_len_push(price@.push('.'), tens);
            lemma_byte_len_push(price@.push('.').push(tens), ones);
            lemma_byte_len_push(price@.push('.').push(tens).push(ones), '€');
        }
        push_char(&mut price, '.');
        push_char(&mut price, tens);
        push_char(&mut price, ones);
        push_char(&mut price, '€');
        proof {
            assert(decimal((self.price_cents / 100) as nat) == decimal(
                self.price_cents as nat / 100,
            ));
        }
        let r = vec![
            owner.name(),
            quantity,
            self.name.clone(),
            self.set.clone(),
            self.multiverse.clone(),
            self.scryfall.clone(),
            price,
        ];
        proof {
            assert(price@ =~= price_text(self.price_cents as nat));
        }
        r
    }

    /// Whether the case-folded search text occurs in the case-folded name.
    pub fn matches(&self, search: String) -> (r: bool)
        ensures
            r == name_matches(self.name@, search@),
            search@.len() == 0 ==> r,
    {
        let name = lowercase(self.name.as_str());
        let query = lowercase(search.as_str());
        proof {
            if search@.len() == 0 {
                assert(name@.subrange(0, 0 + query@.len() as int) =~= query@);
            }
        }
        matches_folded(name.as_str(), query.as_str())
    }

    /// A field-by-field copy.
    pub fn duplicate(&self) -> (r: Entry)
        ensures
            r == *self,
    {
        Entry {
            quantity: self.quantity,
            name: self.name.clone(),
            set: self.set.clone(),
            multiverse: self.multiverse.clone(),
            scryfall: self.scryfall.clone(),
            price_cents: self.price_cents,
        }
    }
}

/// An entry-by-entry copy of one owner's records.
fn copy_collection(c: &Collection) -> (r: Collection)
    ensures
        r@ == c@,
{
    let mut out: Collection = Vec::new();
    let mut i: usize = 0;
    while i < c.len()
        invariant
            i <= c@.len(),
            out@ == c@.take(i as int),
        decreases c@.len() - i,
    {
        out.push(c[i].duplicate());
        i = i + 1;
        proof {
            assert(out@ =~= c@.take(i as int));
        }
    }
    proof {
        assert(c@.take(i as int) =~= c@);
    }
    out
}

/// Why a collection store could not be built.
#[derive(Debug)]
pub enum StoreError {
    /// Fetching this owner's records failed with this message.
    Fetch { owner: User, message: String },
    /// Every result handed over succeeded, but there were not exactly one per owner.
    Incomplete { received: usize },
}

/// Every owner's records, read-only once built.
#[derive(Debug)]
pub struct CollectionStore {
    collections: Vec<Collection>,
}

/// The rows kept from one owner's records, in stored order.
pub open spec fn rows_of(owner: User, entries: Seq<Entry>, search: Seq<char>) -> Seq<(User, Entry)>
    decreases entries.len(),
{
    if entries.len() == 0 {
        seq![]
    } else {
        let kept = rows_of(owner, entries.drop_last(), search);
        if name_matches(entries.last().name@, search) {
            kept.push((owner, entries.last()))
        } else {
            kept
        }
    }
}

/// The merged view: owners in display order, each owner's records in stored
/// order, keeping those whose name matches the search text.
pub open spec fn view_of(collections: Seq<Seq<Entry>>, search: Seq<char>) -> Seq<(User, Entry)>
    decreases collections.len(),
{
    if collections.len() == 0 {
        seq![]
    } else {
        view_of(collections.drop_last(), search) + rows_of(
            all_users()[collections.len() - 1],
            collections.last(),
            search,
        )
    }
}

/// The results before position `i` are all successes.
pub open spec fn ok_before(fetched: Seq<Result<Collection, String>>, i: int) -> bool {
    forall|j: int| 0 <= j < i ==> (#[trigger] fetched[j]) is Ok
}

/// How many of the results stand for an owner.
pub open spec fn owners_covered(fetched: Seq<Result<Collection, String>>) -> int {
    if fetched.len() < OWNER_COUNT {
        fetched.len() as int
    } else {
        OWNER_COUNT as int
    }
}

impl CollectionStore {
    /// The records of each owner, in display order of the owners.
    pub closed spec fn spec_collections(&self) -> Seq<Seq<Entry>> {
        self.collections@.map_values(|c: Collection| c@)
    }

    pub closed spec fn wf(&self) -> bool {
        self.collections@.len() == OWNER_COUNT
    }

    /// Builds the store from one fetch result per owner, in display order.
    /// The first failure aborts the whole build: no store holds only the
    /// owners that succeeded.
    pub fn from_fetched(fetched: Vec<Result<Collection, String>>) -> (r: Result<
        CollectionStore,
        StoreError,
    >)
        ensures
            forall|i: int|
                0 <= i < owners_covered(fetched@) && fetched@[i] is Err && ok_before(fetched@, i)
                    ==> r == Err::<CollectionStore, StoreError>(
                    StoreError::Fetch { owner: all_users()[i], message: fetched@[i]->Err_0 },
                ),
            ok_before(fetched@, owners_covered(fetched@)) && fetched@.len() != OWNER_COUNT ==> r
                == Err::<CollectionStore, StoreError>(
                StoreError::Incomplete { received: fetched.len() },
            ),
            ok_before(fetched@, owners_covered(fetched@)) && fetched@.len() == OWNER_COUNT ==> {
                &&& r is Ok
                &&& r->Ok_0.wf()
                &&& r->Ok_0.spec_collections().len() == OWNER_COUNT
                &&& forall|i: int|
                    0 <= i < OWNER_COUNT ==> r->Ok_0.spec_collections()[i]
                        == (#[trigger] fetched@[i])->Ok_0@
            },
    {
        let received = fetched.len();
        let covered = if received < OWNER_COUNT {
            received
        } else {
            OWNER_COUNT
        };
        let owners = User::all();
        let mut collections: Vec<Collection> = Vec::new();
        let mut i: usize = 0;
        while i < covered
            invariant
                covered == owners_covered(fetched@),
                received == fetched@.len(),
                owners@ == all_users(),
                i <= covered,
                ok_before(fetched@, i as int),
                collections@.len() == i,
                forall|k: int|
                    0 <= k < i ==> collections@[k]@ == (#[trigger] fetched@[k])->Ok_0@,
            decreases covered - i,
        {
            match &fetched[i] {
                Ok(c) => {
                    collections.push(copy_collection(c));
                },
                Err(message) => {
                    proof {
                        assert(!ok_before(fetched@, covered as int));
                        assert forall|k: int|
                            0 <= k < owners_covered(fetched@) && fetched@[k] is Err && ok_before(
                                fetched@,
                                k,
                            ) implies k == i by {
                            if k < i {
                                assert(fetched@[k] is Ok);
                            } else if k > i {
                                assert(fetched@[i as int] is Ok);
                            }
                        }
                    }
                    return Err(StoreError::Fetch { owner: owners[i], message: message.clone() });
                },
            }
            i = i + 1;
        }
        if received != OWNER_COUNT {
            return Err(StoreError::Incomplete { received });
        }
        let store = CollectionStore { collections };
        proof {
            assert forall|k: int| 0 <= k < OWNER_COUNT implies store.spec_collections()[k]
                == (#[trigger] fetched@[k])->Ok_0@ by {
                assert(collections@[k]@ == fetched@[k]->Ok_0@);
            }
        }
        Ok(store)
    }

    /// The records of the owner at display position `i`.
    pub fn collection(&self, i: usize) -> (r: &Collection)
        requires
            self.wf(),
            i < OWNER_COUNT,
        ensures
            r@ == self.spec_collections()[i as int],
    {
        &self.collections[i]
    }
}

/// The rows of the store whose record name matches the search text: owners
/// in display order, each owner's records in stored order.
pub fn compute_view(store: &CollectionStore, search: &String) -> (r: Vec<(User, Entry)>)
    requires
        store.wf(),
    ensures
        r@ == view_of(store.spec_collections(), search@),
{
    let owners = User::all();
    let ghost cols = store.spec_collections();
    let mut out: Vec<(User, Entry)> = Vec::new();
    let mut i: usize = 0;
    proof {
        assert(cols.take(0) =~= Seq::<Seq<Entry>>::empty());
    }
    while i < OWNER_COUNT
        invariant
            store.wf(),
            cols == store.spec_collections(),
            cols.len() == OWNER_COUNT,
            owners@ == all_users(),
            i <= OWNER_COUNT,
            out@ == view_of(cols.take(i as int), search@),
        decreases OWNER_COUNT - i,
    {
        let entries = store.collection(i);
        let owner = owners[i];
        let ghost before = out@;
        let mut j: usize = 0;
        proof {
            assert(entries@.take(0) =~= Seq::<Entry>::empty());
            assert(before + rows_of(owner, entries@.take(0), search@) =~= before);
        }
        while j < entries.len()
            invariant
                entries@ == cols[i as int],
                out@ == before + rows_of(owner, entries@.take(j as int), search@),
                j <= entries@.len(),
            decreases entries@.len() - j,
        {
            let e = &entries[j];
            let keep = e.matches(search.clone());
            proof {
                assert(entries@.take(j + 1).drop_last() =~= entries@.take(j as int));
                assert(entries@.take(j + 1).last() == e);
            }
            if keep {
                out.push((owner, e.duplicate()));
            }
            j = j + 1;
            proof {
                assert(out@ =~= before + rows_of(owner, entries@.take(j as int), search@));
            }
        }
        proof {
            assert(entries@.take(j as int) =~= entries@);
            assert(cols.take(i + 1).drop_last() =~= cols.take(i as int));
            assert(cols.take(i + 1).last() == cols[i as int]);
        }
        i = i + 1;
    }
    proof {
        assert(cols.take(OWNER_COUNT as int) =~= cols);
    }
    out
}

/// A search text that occurs in another keeps at least the other's records:
/// a record whose folded name contains the longer folded text contains the
/// shorter one too.
pub proof fn lemma_substring_transitive(a: Seq<char>, b: Seq<char>, c: Seq<char>)
    requires
        is_substring(a, b),
        is_substring(b, c),
    ensures
        is_substring(a, c),
{
    let j = choose|j: int| 0 <= j && j + a.len() <= b.len() && #[trigger] b.subrange(j, j + a.len()) == a;
    let i = choose|i: int| 0 <= i && i + b.len() <= c.len() && #[trigger] c.subrange(i, i + b.len()) == b;
    assert(c.subrange(i + j, i + j + a.len()) =~= b.subrange(j, j + a.len()));
}

proof fn lemma_rows_shrink(owner: User, entries: Seq<Entry>, narrow: Seq<char>, wide: Seq<char>)
    requires
        is_substring(lower_of(wide), lower_of(narrow)),
    ensures
        rows_of(owner, entries, narrow).len() <= rows_of(owner, entries, wide).len(),
    decreases entries.len(),
{
    if entries.len() > 0 {
        lemma_rows_shrink(owner, entries.drop_last(), narrow, wide);
        if name_matches(entries.last().name@, narrow) {
            lemma_substring_transitive(lower_of(wide), lower_of(narrow), lower_of(entries.last().name@));
        }
    }
}

proof fn lemma_view_shrinks(collections: Seq<Seq<Entry>>, narrow: Seq<char>, wide: Seq<char>)
    requires
        is_substring(lower_of(wide), lower_of(narrow)),
    ensures
        view_of(collections, narrow).len() <= view_of(collections, wide).len(),
    decreases collections.len(),
{
    if collections.len() > 0 {
        lemma_view_shrinks(collections.drop_last(), narrow, wide);
        lemma_rows_shrink(all_users()[collections.len() - 1], collections.last(), narrow, wide);
    }
}

/// Appending characters to the search text never lengthens the view, as long
/// as case folding of the longer text begins with the folding of the shorter
/// one (folding that depends on what follows, such as a final sigma, can
/// break this).
pub proof fn view_shrinks_as_search_grows(
    collections: Seq<Seq<Entry>>,
    search: Seq<char>,
    appended: Seq<char>,
)
    requires
        lower_of(search).is_prefix_of(lower_of(search + appended)),
    ensures
        view_of(collections, search + appended).len() <= view_of(collections, search).len(),
{
    let short = lower_of(search);
    let long = lower_of(search + appended);
    assert(long.subrange(0, 0 + short.len() as int) =~= short);
    lemma_view_shrinks(collections, search + appended, search);
}

} // verus!

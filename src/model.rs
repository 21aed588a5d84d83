use vstd::prelude::*;

verus! {

/// A named contact person of a supplier.
pub struct Contact {
    pub nume_contact: String,
    pub email: String,
    pub telefon: String,
}

/// A supplier: its name, its contact channels and its contact people.
pub struct Supplier {
    pub nume: String,
    pub emails: Vec<String>,
    pub telefoane: Vec<String>,
    pub contacte: Vec<Contact>,
}

/// The whole catalog document.
///
/// `suppliers` holds the mapping from a category name to that category's
/// suppliers as a list of entries. A key may in principle appear twice; the
/// mapping then gives the last entry with that key, and every operation reads
/// and writes that entry.
pub struct DB {
    pub categories: Vec<String>,
    pub suppliers: Vec<(String, Vec<Supplier>)>,
}

/// The abstract contact: its three strings.
pub struct ContactView {
    pub nume_contact: Seq<char>,
    pub email: Seq<char>,
    pub telefon: Seq<char>,
}

/// The abstract supplier.
pub struct SupplierView {
    pub nume: Seq<char>,
    pub emails: Seq<Seq<char>>,
    pub telefoane: Seq<Seq<char>>,
    pub contacte: Seq<ContactView>,
}

/// The abstract document: category names in order, and the supplier mapping.
pub struct DbView {
    pub categories: Seq<Seq<char>>,
    pub suppliers: Map<Seq<char>, Seq<SupplierView>>,
}

impl View for Contact {
    type V = ContactView;

    open spec fn view(&self) -> ContactView {
        ContactView { nume_contact: self.nume_contact@, email: self.email@, telefon: self.telefon@ }
    }
}

impl View for Supplier {
    type V = SupplierView;

    open spec fn view(&self) -> SupplierView {
        SupplierView {
            nume: self.nume@,
            emails: names_of(self.emails@),
            telefoane: names_of(self.telefoane@),
            contacte: contacts_view(self.contacte@),
        }
    }
}

/// The abstract contacts of a list of contacts.
pub open spec fn contacts_view(v: Seq<Contact>) -> Seq<ContactView> {
    v.map_values(|c: Contact| c@)
}

/// The abstract suppliers of a list of suppliers.
pub open spec fn suppliers_view(v: Seq<Supplier>) -> Seq<SupplierView> {
    v.map_values(|s: Supplier| s@)
}

/// The category names of a list of strings.
pub open spec fn names_of(v: Seq<String>) -> Seq<Seq<char>> {
    v.map_values(|s: String| s@)
}

/// The mapping that a list of entries stands for: a later entry overrides an
/// earlier one with the same key.
pub open spec fn entries_map(e: Seq<(String, Vec<Supplier>)>) -> Map<Seq<char>, Seq<SupplierView>>
    decreases e.len(),
{
    if e.len() == 0 {
        Map::empty()
    } else {
        entries_map(e.drop_last()).insert(e.last().0@, suppliers_view(e.last().1@))
    }
}

/// `i` is the last position of the entries whose key is `k`.
pub open spec fn is_last_key(e: Seq<(String, Vec<Supplier>)>, k: Seq<char>, i: int) -> bool {
    &&& 0 <= i < e.len()
    &&& e[i].0@ == k
    &&& forall|j: int| i < j < e.len() ==> e[j].0@ != k
}

impl View for DB {
    type V = DbView;

    open spec fn view(&self) -> DbView {
        DbView { categories: names_of(self.categories@), suppliers: entries_map(self.suppliers@) }
    }
}

/// A key is in the mapping exactly when some entry carries it.
pub proof fn lemma_entries_dom(e: Seq<(String, Vec<Supplier>)>, k: Seq<char>)
    ensures
        entries_map(e).contains_key(k) <==> exists|i: int| 0 <= i < e.len() && e[i].0@ == k,
    decreases e.len(),
{
    if e.len() > 0 {
        lemma_entries_dom(e.drop_last(), k);
        if entries_map(e.drop_last()).contains_key(k) {
            let i = choose|i: int| 0 <= i < e.drop_last().len() && e.drop_last()[i].0@ == k;
            assert(e[i].0@ == k);
        }
        if exists|i: int| 0 <= i < e.len() && e[i].0@ == k {
            let i = choose|i: int| 0 <= i < e.len() && e[i].0@ == k;
            if i < e.len() - 1 {
                assert(e.drop_last()[i].0@ == k);
            }
        }
    }
}

/// The mapping gives, for a key, the list of its last entry.
pub proof fn lemma_entries_value(e: Seq<(String, Vec<Supplier>)>, k: Seq<char>, i: int)
    requires
        is_last_key(e, k, i),
    ensures
        entries_map(e).contains_key(k),
        entries_map(e)[k] == suppliers_view(e[i].1@),
    decreases e.len(),
{
    if i < e.len() - 1 {
        lemma_entries_value(e.drop_last(), k, i);
    }
}

/// Replacing the list of the last entry of a key replaces that key's value.
pub proof fn lemma_entries_update(e: Seq<(String, Vec<Supplier>)>, i: int, v: Vec<Supplier>)
    requires
        is_last_key(e, e[i].0@, i),
    ensures
        entries_map(e.update(i, (e[i].0, v))) == entries_map(e).insert(e[i].0@, suppliers_view(v@)),
    decreases e.len(),
{
    let k = e[i].0@;
    let u = e.update(i, (e[i].0, v));
    if i == e.len() - 1 {
        assert(u.drop_last() =~= e.drop_last());
        assert(entries_map(u) =~= entries_map(e).insert(k, suppliers_view(v@)));
    } else {
        assert(u.drop_last() =~= e.drop_last().update(i, (e[i].0, v)));
        lemma_entries_update(e.drop_last(), i, v);
        assert(entries_map(u) =~= entries_map(e).insert(k, suppliers_view(v@)));
    }
}

/// Dropping every entry of a key removes that key from the mapping.
pub proof fn lemma_entries_filter(e: Seq<(String, Vec<Supplier>)>, k: &String)
    ensures
        entries_map(e.filter(|x: (String, Vec<Supplier>)| x.0@ != k@)) == entries_map(e).remove(k@),
    decreases e.len(),
{
    let pred = |x: (String, Vec<Supplier>)| x.0@ != k@;
    reveal(Seq::filter);
    if e.len() == 0 {
        assert(entries_map(e).remove(k@) =~= Map::empty());
    } else {
        lemma_entries_filter(e.drop_last(), k);
        if pred(e.last()) {
            assert(e.filter(pred).drop_last() =~= e.drop_last().filter(pred));
            assert(entries_map(e.filter(pred)) =~= entries_map(e).remove(k@));
        } else {
            assert(entries_map(e.filter(pred)) =~= entries_map(e).remove(k@));
        }
    }
}

/// One step of a filter over a growing prefix.
pub proof fn lemma_filter_prefix<A>(s: Seq<A>, k: int, pred: spec_fn(A) -> bool)
    requires
        0 <= k < s.len(),
    ensures
        s.subrange(0, k + 1).filter(pred) == (if pred(s[k]) {
            s.subrange(0, k).filter(pred).push(s[k])
        } else {
            s.subrange(0, k).filter(pred)
        }),
{
    reveal(Seq::filter);
    assert(s.subrange(0, k + 1).drop_last() =~= s.subrange(0, k));
}

} // verus!

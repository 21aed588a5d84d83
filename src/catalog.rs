use vstd::prelude::*;

use crate::model::{
    contacts_view, entries_map, is_last_key, lemma_entries_dom, lemma_entries_filter,
    lemma_entries_update, lemma_entries_value, lemma_filter_prefix, names_of, suppliers_view,
    Contact, ContactView, DbView, Supplier, SupplierView, DB,
};

verus! {

// ---------------------------------------------------------------------------
// What each operation does to the abstract document
// ---------------------------------------------------------------------------

/// `i` is the first supplier of `l` named `name`.
pub open spec fn is_first_supplier(l: Seq<SupplierView>, name: Seq<char>, i: int) -> bool {
    &&& 0 <= i < l.len()
    &&& l[i].nume == name
    &&& forall|j: int| 0 <= j < i ==> l[j].nume != name
}

/// `i` is the first contact of `l` named `name`.
pub open spec fn is_first_contact(l: Seq<ContactView>, name: Seq<char>, i: int) -> bool {
    &&& 0 <= i < l.len()
    &&& l[i].nume_contact == name
    &&& forall|j: int| 0 <= j < i ==> l[j].nume_contact != name
}

/// `f` applied to the first supplier named `name`; the list as it was if none is.
pub open spec fn on_first_supplier(
    l: Seq<SupplierView>,
    name: Seq<char>,
    f: spec_fn(SupplierView) -> SupplierView,
) -> Seq<SupplierView> {
    if exists|i: int| is_first_supplier(l, name, i) {
        let i = choose|i: int| is_first_supplier(l, name, i);
        l.update(i, f(l[i]))
    } else {
        l
    }
}

/// `f` applied to the first contact named `name`; the list as it was if none is.
pub open spec fn on_first_contact(
    l: Seq<ContactView>,
    name: Seq<char>,
    f: spec_fn(ContactView) -> ContactView,
) -> Seq<ContactView> {
    if exists|i: int| is_first_contact(l, name, i) {
        let i = choose|i: int| is_first_contact(l, name, i);
        l.update(i, f(l[i]))
    } else {
        l
    }
}

/// `f` applied to the suppliers of category `cat`, when the mapping has it.
pub open spec fn in_category(
    d: DbView,
    cat: Seq<char>,
    f: spec_fn(Seq<SupplierView>) -> Seq<SupplierView>,
) -> DbView {
    if d.suppliers.contains_key(cat) {
        DbView { categories: d.categories, suppliers: d.suppliers.insert(cat, f(d.suppliers[cat])) }
    } else {
        d
    }
}

/// The text of an optional string.
pub open spec fn opt_view(o: Option<String>) -> Option<Seq<char>> {
    match o {
        Some(s) => Some(s@),
        None => None,
    }
}

/// The texts of an optional list of strings.
pub open spec fn opt_names(o: Option<Vec<String>>) -> Option<Seq<Seq<char>>> {
    match o {
        Some(v) => Some(names_of(v@)),
        None => None,
    }
}

/// A value replaced by `o` when `o` is given.
pub open spec fn or_keep<A>(o: Option<A>, a: A) -> A {
    match o {
        Some(b) => b,
        None => a,
    }
}

/// The category appended, with an empty supplier list, unless already listed.
pub open spec fn add_category_spec(d: DbView, name: Seq<char>) -> DbView {
    if d.categories.contains(name) {
        d
    } else {
        DbView { categories: d.categories.push(name), suppliers: d.suppliers.insert(name, Seq::empty()) }
    }
}

/// Every listing of the category dropped, and its mapping key removed.
pub open spec fn remove_category_spec(d: DbView, name: Seq<char>) -> DbView {
    DbView {
        categories: d.categories.filter(|c: Seq<char>| c != name),
        suppliers: d.suppliers.remove(name),
    }
}

/// The supplier appended to a listed category that the mapping has.
pub open spec fn add_supplier_spec(d: DbView, cat: Seq<char>, s: SupplierView) -> DbView {
    if d.categories.contains(cat) {
        in_category(d, cat, |l: Seq<SupplierView>| l.push(s))
    } else {
        d
    }
}

/// Every supplier of the category with the given name dropped.
pub open spec fn remove_supplier_spec(d: DbView, cat: Seq<char>, name: Seq<char>) -> DbView {
    in_category(d, cat, |l: Seq<SupplierView>| l.filter(|s: SupplierView| s.nume != name))
}

/// A supplier with each given field replaced whole.
pub open spec fn supplier_edited(
    s: SupplierView,
    new_name: Option<Seq<char>>,
    new_emails: Option<Seq<Seq<char>>>,
    new_phones: Option<Seq<Seq<char>>>,
) -> SupplierView {
    SupplierView {
        nume: or_keep(new_name, s.nume),
        emails: or_keep(new_emails, s.emails),
        telefoane: or_keep(new_phones, s.telefoane),
        contacte: s.contacte,
    }
}

/// The first supplier of the category with the old name edited.
pub open spec fn update_supplier_spec(
    d: DbView,
    cat: Seq<char>,
    old_name: Seq<char>,
    new_name: Option<Seq<char>>,
    new_emails: Option<Seq<Seq<char>>>,
    new_phones: Option<Seq<Seq<char>>>,
) -> DbView {
    in_category(
        d,
        cat,
        |l: Seq<SupplierView>|
            on_first_supplier(
                l,
                old_name,
                |s: SupplierView| supplier_edited(s, new_name, new_emails, new_phones),
            ),
    )
}

/// The contact appended to the first supplier of the category with the given name.
pub open spec fn add_contact_spec(d: DbView, cat: Seq<char>, sup: Seq<char>, c: ContactView) -> DbView {
    in_category(
        d,
        cat,
        |l: Seq<SupplierView>|
            on_first_supplier(
                l,
                sup,
                |s: SupplierView| SupplierView { contacte: s.contacte.push(c), ..s },
            ),
    )
}

/// Every contact with the given name dropped from the first matching supplier.
pub open spec fn remove_contact_spec(
    d: DbView,
    cat: Seq<char>,
    sup: Seq<char>,
    name: Seq<char>,
) -> DbView {
    in_category(
        d,
        cat,
        |l: Seq<SupplierView>|
            on_first_supplier(
                l,
                sup,
                |s: SupplierView|
                    SupplierView {
                        contacte: s.contacte.filter(|c: ContactView| c.nume_contact != name),
                        ..s
                    },
            ),
    )
}

/// A contact with each given field replaced.
pub open spec fn contact_edited(
    c: ContactView,
    new_name: Option<Seq<char>>,
    new_email: Option<Seq<char>>,
    new_phone: Option<Seq<char>>,
) -> ContactView {
    ContactView {
        nume_contact: or_keep(new_name, c.nume_contact),
        email: or_keep(new_email, c.email),
        telefon: or_keep(new_phone, c.telefon),
    }
}

/// The first contact with the old name, of the first matching supplier, edited.
pub open spec fn update_contact_spec(
    d: DbView,
    cat: Seq<char>,
    sup: Seq<char>,
    old_contact: Seq<char>,
    new_name: Option<Seq<char>>,
    new_email: Option<Seq<char>>,
    new_phone: Option<Seq<char>>,
) -> DbView {
    in_category(
        d,
        cat,
        |l: Seq<SupplierView>|
            on_first_supplier(
                l,
                sup,
                |s: SupplierView|
                    SupplierView {
                        contacte: on_first_contact(
                            s.contacte,
                            old_contact,
                            |c: ContactView| contact_edited(c, new_name, new_email, new_phone),
                        ),
                        ..s
                    },
            ),
    )
}

// ---------------------------------------------------------------------------
// Lookups
// ---------------------------------------------------------------------------

proof fn lemma_first_supplier_unique(l: Seq<SupplierView>, name: Seq<char>, i: int, j: int)
    requires
        is_first_supplier(l, name, i),
        is_first_supplier(l, name, j),
    ensures
        i == j,
{
    if i < j {
        assert(l[i].nume == name);
    } else if j < i {
        assert(l[j].nume == name);
    }
}

proof fn lemma_first_contact_unique(l: Seq<ContactView>, name: Seq<char>, i: int, j: int)
    requires
        is_first_contact(l, name, i),
        is_first_contact(l, name, j),
    ensures
        i == j,
{
    if i < j {
        assert(l[i].nume_contact == name);
    } else if j < i {
        assert(l[j].nume_contact == name);
    }
}

proof fn lemma_on_first_supplier(l: Seq<SupplierView>, name: Seq<char>, j: int)
    requires
        is_first_supplier(l, name, j),
    ensures
        forall|f: spec_fn(SupplierView) -> SupplierView|
            #[trigger] on_first_supplier(l, name, f) == l.update(j, f(l[j])),
{
    let i = choose|i: int| is_first_supplier(l, name, i);
    lemma_first_supplier_unique(l, name, i, j);
}

proof fn lemma_no_supplier(l: Seq<Supplier>, name: Seq<char>)
    requires
        forall|j: int| 0 <= j < l.len() ==> l[j].nume@ != name,
    ensures
        forall|f: spec_fn(SupplierView) -> SupplierView|
            #[trigger] on_first_supplier(suppliers_view(l), name, f) == suppliers_view(l),
{
    if exists|i: int| is_first_supplier(suppliers_view(l), name, i) {
        let i = choose|i: int| is_first_supplier(suppliers_view(l), name, i);
        assert(l[i].nume@ == name);
    }
}

proof fn lemma_on_first_contact(l: Seq<ContactView>, name: Seq<char>, j: int)
    requires
        is_first_contact(l, name, j),
    ensures
        forall|f: spec_fn(ContactView) -> ContactView|
            #[trigger] on_first_contact(l, name, f) == l.update(j, f(l[j])),
{
    let i = choose|i: int| is_first_contact(l, name, i);
    lemma_first_contact_unique(l, name, i, j);
}

proof fn lemma_no_contact(l: Seq<Contact>, name: Seq<char>)
    requires
        forall|j: int| 0 <= j < l.len() ==> l[j].nume_contact@ != name,
    ensures
        forall|f: spec_fn(ContactView) -> ContactView|
            #[trigger] on_first_contact(contacts_view(l), name, f) == contacts_view(l),
{
    if exists|i: int| is_first_contact(contacts_view(l), name, i) {
        let i = choose|i: int| is_first_contact(contacts_view(l), name, i);
        assert(l[i].nume_contact@ == name);
    }
}

/// Whether `name` is among the category names `v`.
fn contains_name(v: &Vec<String>, name: &String) -> (r: bool)
    ensures
        r == names_of(v@).contains(name@),
{
    let mut i: usize = 0;
    while i < v.len()
        invariant
            i <= v.len(),
            forall|j: int| 0 <= j < i ==> v@[j]@ != name@,
        decreases v.len() - i,
    {
        if v[i] == *name {
            assert(names_of(v@)[i as int] == name@);
            return true;
        }
        i = i + 1;
    }
    assert(!names_of(v@).contains(name@)) by {
        if names_of(v@).contains(name@) {
            let j = choose|j: int| 0 <= j < names_of(v@).len() && names_of(v@)[j] == name@;
            assert(v@[j]@ == name@);
        }
    }
    false
}

/// The position of the last mapping entry with key `k`.
fn find_entry(e: &Vec<(String, Vec<Supplier>)>, k: &String) -> (r: Option<usize>)
    ensures
        r matches Some(i) ==> is_last_key(e@, k@, i as int),
        r is None ==> forall|j: int| 0 <= j < e@.len() ==> e@[j].0@ != k@,
{
    let mut i: usize = e.len();
    while i > 0
        invariant
            i <= e.len(),
            forall|j: int| i <= j < e@.len() ==> e@[j].0@ != k@,
        decreases i,
    {
        i = i - 1;
        if e[i].0 == *k {
            return Some(i);
        }
    }
    None
}

/// The position of the first supplier named `name`.
fn find_supplier(l: &Vec<Supplier>, name: &String) -> (r: Option<usize>)
    ensures
        r matches Some(i) ==> is_first_supplier(suppliers_view(l@), name@, i as int),
        r is None ==> forall|j: int| 0 <= j < l@.len() ==> l@[j].nume@ != name@,
{
    let mut i: usize = 0;
    while i < l.len()
        invariant
            i <= l.len(),
            forall|j: int| 0 <= j < i ==> l@[j].nume@ != name@,
        decreases l.len() - i,
    {
        if l[i].nume == *name {
            return Some(i);
        }
        i = i + 1;
    }
    None
}

/// The position of the first contact named `name`.
fn find_contact(l: &Vec<Contact>, name: &String) -> (r: Option<usize>)
    ensures
        r matches Some(i) ==> is_first_contact(contacts_view(l@), name@, i as int),
        r is None ==> forall|j: int| 0 <= j < l@.len() ==> l@[j].nume_contact@ != name@,
{
    let mut i: usize = 0;
    while i < l.len()
        invariant
            i <= l.len(),
            forall|j: int| 0 <= j < i ==> l@[j].nume_contact@ != name@,
        decreases l.len() - i,
    {
        if l[i].nume_contact == *name {
            return Some(i);
        }
        i = i + 1;
    }
    None
}

// ---------------------------------------------------------------------------
// Removal of every match
// ---------------------------------------------------------------------------

/// The names of `v` other than `name`, in order.
fn without_name(v: Vec<String>, name: &String) -> (r: Vec<String>)
    ensures
        names_of(r@) == names_of(v@).filter(|c: Seq<char>| c != name@),
{
    let ghost orig = v@;
    let mut rest = v;
    let mut out: Vec<String> = Vec::new();
    while rest.len() > 0
        invariant
            rest@.len() <= orig.len(),
            rest@ == orig.subrange(orig.len() - rest@.len(), orig.len() as int),
            names_of(out@) == names_of(orig).subrange(0, orig.len() - rest@.len()).filter((|c: Seq<char>| c != name@)),
        decreases rest.len(),
    {
        let ghost k = orig.len() - rest@.len();
        let x = rest.remove(0);
        assert(x == orig[k]);
        proof {
            lemma_filter_prefix(names_of(orig), k, (|c: Seq<char>| c != name@));
            assert(names_of(orig).subrange(0, k) =~= names_of(orig.subrange(0, k)));
        }
        if !(x == *name) {
            let ghost before = out@;
            out.push(x);
            assert(names_of(out@) =~= names_of(before).push(orig[k]@));
        }
        assert(rest@ =~= orig.subrange(orig.len() - rest@.len(), orig.len() as int));
    }
    assert(names_of(orig).subrange(0, orig.len() as int) =~= names_of(orig));
    out
}

/// The mapping entries whose key is not `k`, in order.
fn without_key(v: Vec<(String, Vec<Supplier>)>, k: &String) -> (r: Vec<(String, Vec<Supplier>)>)
    ensures
        r@ == v@.filter(|x: (String, Vec<Supplier>)| x.0@ != k@),
{
    let ghost orig = v@;
    let mut rest = v;
    let mut out: Vec<(String, Vec<Supplier>)> = Vec::new();
    while rest.len() > 0
        invariant
            rest@.len() <= orig.len(),
            rest@ == orig.subrange(orig.len() - rest@.len(), orig.len() as int),
            out@ == orig.subrange(0, orig.len() - rest@.len()).filter((|x: (String, Vec<Supplier>)| x.0@ != k@)),
        decreases rest.len(),
    {
        let ghost i = orig.len() - rest@.len();
        let x = rest.remove(0);
        assert(x == orig[i]);
        proof {
            lemma_filter_prefix(orig, i, (|x: (String, Vec<Supplier>)| x.0@ != k@));
        }
        let ghost before = out@;
        assert(orig[i].0@ == x.0@);
        assert((|x: (String, Vec<Supplier>)| x.0@ != k@)(orig[i]) == (x.0@ != k@));
        if !(x.0 == *k) {
            out.push(x);
        }
        assert((|x: (String, Vec<Supplier>)| x.0@ != k@)(orig[i]) ==> out@ == before.push(orig[i]));
        assert(!(|x: (String, Vec<Supplier>)| x.0@ != k@)(orig[i]) ==> out@ == before);
        assert(out@ == orig.subrange(0, i + 1).filter((|x: (String, Vec<Supplier>)| x.0@ != k@)));
        assert(rest@ =~= orig.subrange(orig.len() - rest@.len(), orig.len() as int));
    }
    assert(orig.subrange(0, orig.len() as int) =~= orig);
    out
}

/// The suppliers of `v` not named `name`, in order.
fn without_supplier_named(v: Vec<Supplier>, name: &String) -> (r: Vec<Supplier>)
    ensures
        suppliers_view(r@) == suppliers_view(v@).filter(|s: SupplierView| s.nume != name@),
{
    let ghost orig = v@;
    let mut rest = v;
    let mut out: Vec<Supplier> = Vec::new();
    while rest.len() > 0
        invariant
            rest@.len() <= orig.len(),
            rest@ == orig.subrange(orig.len() - rest@.len(), orig.len() as int),
            suppliers_view(out@) == suppliers_view(orig).subrange(
                0,
                orig.len() - rest@.len(),
            ).filter((|s: SupplierView| s.nume != name@)),
        decreases rest.len(),
    {
        let ghost k = orig.len() - rest@.len();
        let x = rest.remove(0);
        assert(x == orig[k]);
        proof {
            lemma_filter_prefix(suppliers_view(orig), k, (|s: SupplierView| s.nume != name@));
        }
        if !(x.nume == *name) {
            let ghost before = out@;
            out.push(x);
            assert(suppliers_view(out@) =~= suppliers_view(before).push(orig[k]@));
        }
        assert(rest@ =~= orig.subrange(orig.len() - rest@.len(), orig.len() as int));
    }
    assert(suppliers_view(orig).subrange(0, orig.len() as int) =~= suppliers_view(orig));
    out
}

/// The contacts of `v` not named `name`, in order.
fn without_contact_named(v: Vec<Contact>, name: &String) -> (r: Vec<Contact>)
    ensures
        contacts_view(r@) == contacts_view(v@).filter(|c: ContactView| c.nume_contact != name@),
{
    let ghost orig = v@;
    let mut rest = v;
    let mut out: Vec<Contact> = Vec::new();
    while rest.len() > 0
        invariant
            rest@.len() <= orig.len(),
            rest@ == orig.subrange(orig.len() - rest@.len(), orig.len() as int),
            contacts_view(out@) == contacts_view(orig).subrange(
                0,
                orig.len() - rest@.len(),
            ).filter((|c: ContactView| c.nume_contact != name@)),
        decreases rest.len(),
    {
        let ghost k = orig.len() - rest@.len();
        let x = rest.remove(0);
        assert(x == orig[k]);
        proof {
            lemma_filter_prefix(contacts_view(orig), k, (|c: ContactView| c.nume_contact != name@));
        }
        if !(x.nume_contact == *name) {
            let ghost before = out@;
            out.push(x);
            assert(contacts_view(out@) =~= contacts_view(before).push(orig[k]@));
        }
        assert(rest@ =~= orig.subrange(orig.len() - rest@.len(), orig.len() as int));
    }
    assert(contacts_view(orig).subrange(0, orig.len() as int) =~= contacts_view(orig));
    out
}

// ---------------------------------------------------------------------------
// Operations
// ---------------------------------------------------------------------------

/// Adds the category `cat_name` with no suppliers, unless it is already listed.
pub fn add_category(db: &mut DB, cat_name: String)
    ensures
        final(db)@ == add_category_spec(old(db)@, cat_name@),
{
    if contains_name(&db.categories, &cat_name) {
        return;
    }
    let ghost e0 = db.suppliers@;
    let ghost d0 = db@;
    db.categories.push(cat_name.clone());
    assert(db@.categories =~= d0.categories.push(cat_name@));
    match find_entry(&db.suppliers, &cat_name) {
        Some(i) => {
            let (k, _list) = db.suppliers.remove(i);
            let empty: Vec<Supplier> = Vec::new();
            let ghost v = empty;
            db.suppliers.insert(i, (k, empty));
            proof {
                assert(db.suppliers@ =~= e0.update(i as int, (e0[i as int].0, v)));
                lemma_entries_update(e0, i as int, v);
                assert(suppliers_view(v@) =~= Seq::empty());
            }
        },
        None => {
            let empty: Vec<Supplier> = Vec::new();
            let ghost v = empty;
            db.suppliers.push((cat_name, empty));
            proof {
                assert(db.suppliers@.drop_last() =~= e0);
                assert(suppliers_view(v@) =~= Seq::empty());
            }
        },
    }
    assert(db@.suppliers =~= d0.suppliers.insert(cat_name@, Seq::empty()));
}

/// Drops every listing of the category `cat_name` and its supplier mapping entry.
pub fn remove_category(db: &mut DB, cat_name: String)
    ensures
        final(db)@ == remove_category_spec(old(db)@, cat_name@),
{
    let ghost d0 = db@;
    let mut categories: Vec<String> = Vec::new();
    std::mem::swap(&mut categories, &mut db.categories);
    db.categories = without_name(categories, &cat_name);
    let mut entries: Vec<(String, Vec<Supplier>)> = Vec::new();
    std::mem::swap(&mut entries, &mut db.suppliers);
    let ghost e0 = entries@;
    db.suppliers = without_key(entries, &cat_name);
    proof {
        lemma_entries_filter(e0, &cat_name);
        assert(db@.categories == remove_category_spec(d0, cat_name@).categories);
        assert(db@.suppliers == remove_category_spec(d0, cat_name@).suppliers);
    }
}

/// Appends `supplier` to the suppliers of `cat_name`, when that category is
/// listed and has a mapping entry.
pub fn add_supplier(db: &mut DB, cat_name: String, supplier: Supplier)
    ensures
        final(db)@ == add_supplier_spec(old(db)@, cat_name@, supplier@),
{
    if !contains_name(&db.categories, &cat_name) {
        return;
    }
    let ghost d0 = db@;
    let ghost e0 = db.suppliers@;
    match find_entry(&db.suppliers, &cat_name) {
        None => {
            proof {
                lemma_entries_dom(e0, cat_name@);
            }
        },
        Some(i) => {
            let (k, mut list) = db.suppliers.remove(i);
            proof {
                lemma_entries_value(e0, cat_name@, i as int);
            }
            let ghost l0 = list@;
            let ghost sv = supplier@;
            list.push(supplier);
            assert(suppliers_view(list@) =~= suppliers_view(l0).push(sv));
            let ghost l1 = list;
            db.suppliers.insert(i, (k, list));
            proof {
                assert(db.suppliers@ =~= e0.update(i as int, (e0[i as int].0, l1)));
                lemma_entries_update(e0, i as int, l1);
            }
            assert(db@.suppliers =~= d0.suppliers.insert(cat_name@, suppliers_view(l0).push(sv)));
        },
    }
}

/// Removes every supplier of `cat_name` named `supplier_name`.
pub fn remove_supplier(db: &mut DB, cat_name: String, supplier_name: String)
    ensures
        final(db)@ == remove_supplier_spec(old(db)@, cat_name@, supplier_name@),
{
    let ghost d0 = db@;
    let ghost e0 = db.suppliers@;
    match find_entry(&db.suppliers, &cat_name) {
        None => {
            proof {
                lemma_entries_dom(e0, cat_name@);
            }
        },
        Some(i) => {
            let (k, list) = db.suppliers.remove(i);
            proof {
                lemma_entries_value(e0, cat_name@, i as int);
            }
            let list = without_supplier_named(list, &supplier_name);
            let ghost l1 = list;
            db.suppliers.insert(i, (k, list));
            proof {
                assert(db.suppliers@ =~= e0.update(i as int, (e0[i as int].0, l1)));
                lemma_entries_update(e0, i as int, l1);
            }
            assert(db@.suppliers =~= d0.suppliers.insert(cat_name@, suppliers_view(l1@)));
        },
    }
}

/// Overwrites the given fields of the first supplier of `cat_name` named
/// `old_name`; the fields not given stay as they were.
pub fn update_supplier(
    db: &mut DB,
    cat_name: String,
    old_name: String,
    new_name: Option<String>,
    new_emails: Option<Vec<String>>,
    new_telefoane: Option<Vec<String>>,
)
    ensures
        final(db)@ == update_supplier_spec(
            old(db)@,
            cat_name@,
            old_name@,
            opt_view(new_name),
            opt_names(new_emails),
            opt_names(new_telefoane),
        ),
{
    let ghost d0 = db@;
    let ghost e0 = db.suppliers@;
    let ghost nn = opt_view(new_name);
    let ghost ne = opt_names(new_emails);
    let ghost nt = opt_names(new_telefoane);
    match find_entry(&db.suppliers, &cat_name) {
        None => {
            proof {
                lemma_entries_dom(e0, cat_name@);
            }
        },
        Some(i) => {
            let (k, mut list) = db.suppliers.remove(i);
            proof {
                lemma_entries_value(e0, cat_name@, i as int);
            }
            let ghost l0 = list@;
            match find_supplier(&list, &old_name) {
                None => {
                    proof {
                        lemma_no_supplier(l0, old_name@);
                    }
                },
                Some(j) => {
                    let mut s = list.remove(j);
                    let ghost s0 = s@;
                    if let Some(n) = new_name {
                        s.nume = n;
                    }
                    if let Some(e) = new_emails {
                        s.emails = e;
                    }
                    if let Some(t) = new_telefoane {
                        s.telefoane = t;
                    }
                    assert(s@ == supplier_edited(s0, nn, ne, nt));
                    let ghost s1 = s@;
                    list.insert(j, s);
                    proof {
                        assert(suppliers_view(list@) =~= suppliers_view(l0).update(j as int, s1));
                        lemma_on_first_supplier(suppliers_view(l0), old_name@, j as int);
                    }
                },
            }
            let ghost l1 = list;
            db.suppliers.insert(i, (k, list));
            proof {
                assert(db.suppliers@ =~= e0.update(i as int, (e0[i as int].0, l1)));
                lemma_entries_update(e0, i as int, l1);
            }
            assert(db@.suppliers =~= d0.suppliers.insert(cat_name@, suppliers_view(l1@)));
        },
    }
}

/// Appends `contact` to the first supplier of `cat_name` named `supplier_name`.
pub fn add_contact(db: &mut DB, cat_name: String, supplier_name: String, contact: Contact)
    ensures
        final(db)@ == add_contact_spec(old(db)@, cat_name@, supplier_name@, contact@),
{
    let ghost d0 = db@;
    let ghost e0 = db.suppliers@;
    let ghost cv = contact@;
    match find_entry(&db.suppliers, &cat_name) {
        None => {
            proof {
                lemma_entries_dom(e0, cat_name@);
            }
        },
        Some(i) => {
            let (k, mut list) = db.suppliers.remove(i);
            proof {
                lemma_entries_value(e0, cat_name@, i as int);
            }
            let ghost l0 = list@;
            match find_supplier(&list, &supplier_name) {
                None => {
                    proof {
                        lemma_no_supplier(l0, supplier_name@);
                    }
                },
                Some(j) => {
                    let mut s = list.remove(j);
                    let ghost s0 = s@;
                    s.contacte.push(contact);
                    assert(contacts_view(s.contacte@) =~= s0.contacte.push(cv));
                    let ghost s1 = s@;
                    list.insert(j, s);
                    proof {
                        assert(suppliers_view(list@) =~= suppliers_view(l0).update(j as int, s1));
                        lemma_on_first_supplier(suppliers_view(l0), supplier_name@, j as int);
                    }
                },
            }
            let ghost l1 = list;
            db.suppliers.insert(i, (k, list));
            proof {
                assert(db.suppliers@ =~= e0.update(i as int, (e0[i as int].0, l1)));
                lemma_entries_update(e0, i as int, l1);
            }
            assert(db@.suppliers =~= d0.suppliers.insert(cat_name@, suppliers_view(l1@)));
        },
    }
}

/// Removes every contact named `contact_name` from the first supplier of
/// `cat_name` named `supplier_name`.
pub fn remove_contact(db: &mut DB, cat_name: String, supplier_name: String, contact_name: String)
    ensures
        final(db)@ == remove_contact_spec(old(db)@, cat_name@, supplier_name@, contact_name@),
{
    let ghost d0 = db@;
    let ghost e0 = db.suppliers@;
    match find_entry(&db.suppliers, &cat_name) {
        None => {
            proof {
                lemma_entries_dom(e0, cat_name@);
            }
        },
        Some(i) => {
            let (k, mut list) = db.suppliers.remove(i);
            proof {
                lemma_entries_value(e0, cat_name@, i as int);
            }
            let ghost l0 = list@;
            match find_supplier(&list, &supplier_name) {
                None => {
                    proof {
                        lemma_no_supplier(l0, supplier_name@);
                    }
                },
                Some(j) => {
                    let mut s = list.remove(j);
                    let ghost s0 = s@;
                    let mut contacts: Vec<Contact> = Vec::new();
                    std::mem::swap(&mut contacts, &mut s.contacte);
                    s.contacte = without_contact_named(contacts, &contact_name);
                    let ghost s1 = s@;
                    list.insert(j, s);
                    proof {
                        assert(suppliers_view(list@) =~= suppliers_view(l0).update(j as int, s1));
                        lemma_on_first_supplier(suppliers_view(l0), supplier_name@, j as int);
                    }
                },
            }
            let ghost l1 = list;
            db.suppliers.insert(i, (k, list));
            proof {
                assert(db.suppliers@ =~= e0.update(i as int, (e0[i as int].0, l1)));
                lemma_entries_update(e0, i as int, l1);
            }
            assert(db@.suppliers =~= d0.suppliers.insert(cat_name@, suppliers_view(l1@)));
        },
    }
}

/// Overwrites the given fields of the first contact named `old_contact_name`
/// of the first supplier of `cat_name` named `supplier_name`.
pub fn update_contact(
    db: &mut DB,
    cat_name: String,
    supplier_name: String,
    old_contact_name: String,
    new_contact_name: Option<String>,
    new_email: Option<String>,
    new_phone: Option<String>,
)
    ensures
        final(db)@ == update_contact_spec(
            old(db)@,
            cat_name@,
            supplier_name@,
            old_contact_name@,
            opt_view(new_contact_name),
            opt_view(new_email),
            opt_view(new_phone),
        ),
{
    let ghost d0 = db@;
    let ghost e0 = db.suppliers@;
    let ghost nn = opt_view(new_contact_name);
    let ghost ne = opt_view(new_email);
    let ghost np = opt_view(new_phone);
    match find_entry(&db.suppliers, &cat_name) {
        None => {
            proof {
                lemma_entries_dom(e0, cat_name@);
            }
        },
        Some(i) => {
            let (k, mut list) = db.suppliers.remove(i);
            proof {
                lemma_entries_value(e0, cat_name@, i as int);
            }
            let ghost l0 = list@;
            match find_supplier(&list, &supplier_name) {
                None => {
                    proof {
                        lemma_no_supplier(l0, supplier_name@);
                    }
                },
                Some(j) => {
                    let mut s = list.remove(j);
                    let ghost s0 = s@;
                    let ghost c0 = s.contacte@;
                    match find_contact(&s.contacte, &old_contact_name) {
                        None => {
                            proof {
                                lemma_no_contact(c0, old_contact_name@);
                            }
                        },
                        Some(m) => {
                            let mut c = s.contacte.remove(m);
                            let ghost cv0 = c@;
                            if let Some(n) = new_contact_name {
                                c.nume_contact = n;
                            }
                            if let Some(e) = new_email {
                                c.email = e;
                            }
                            if let Some(p) = new_phone {
                                c.telefon = p;
                            }
                            assert(c@ == contact_edited(cv0, nn, ne, np));
                            let ghost cv1 = c@;
                            s.contacte.insert(m, c);
                            proof {
                                assert(contacts_view(s.contacte@) =~= contacts_view(c0).update(
                                    m as int,
                                    cv1,
                                ));
                                lemma_on_first_contact(contacts_view(c0), old_contact_name@, m as int);
                            }
                        },
                    }
                    let ghost s1 = s@;
                    list.insert(j, s);
                    proof {
                        assert(suppliers_view(list@) =~= suppliers_view(l0).update(j as int, s1));
                        lemma_on_first_supplier(suppliers_view(l0), supplier_name@, j as int);
                    }
                },
            }
            let ghost l1 = list;
            db.suppliers.insert(i, (k, list));
            proof {
                assert(db.suppliers@ =~= e0.update(i as int, (e0[i as int].0, l1)));
                lemma_entries_update(e0, i as int, l1);
            }
            assert(db@.suppliers =~= d0.suppliers.insert(cat_name@, suppliers_view(l1@)));
        },
    }
}

} // verus!

use vstd::prelude::*;

use crate::catalog::{
    add_category_spec, add_contact_spec, add_supplier_spec, is_first_supplier,
    remove_category_spec, remove_contact_spec, update_supplier_spec,
};
use crate::model::{ContactView, DbView, SupplierView};

verus! {

/// Adding a category a second time changes nothing: twice is the same as once.
pub proof fn law_add_category_idempotent(d: DbView, name: Seq<char>)
    ensures
        add_category_spec(add_category_spec(d, name), name) == add_category_spec(d, name),
{
    if !d.categories.contains(name) {
        assert(d.categories.push(name)[d.categories.len() as int] == name);
    }
}

/// After a category is removed, neither the category list nor the supplier
/// mapping holds it.
pub proof fn law_remove_category_absent(d: DbView, name: Seq<char>)
    ensures
        !remove_category_spec(d, name).categories.contains(name),
        !remove_category_spec(d, name).suppliers.contains_key(name),
{
    broadcast use vstd::seq_lib::group_filter_ensures;

    let r = remove_category_spec(d, name).categories;
    if r.contains(name) {
        let i = choose|i: int| 0 <= i < r.len() && r[i] == name;
        assert((|c: Seq<char>| c != name)(r[i]));
    }
}

/// Adding a supplier never creates a mapping key; into a category that is not
/// listed it leaves the mapping as it was.
pub proof fn law_add_supplier_keys(d: DbView, cat: Seq<char>, s: SupplierView)
    ensures
        add_supplier_spec(d, cat, s).suppliers.dom() == d.suppliers.dom(),
        !d.categories.contains(cat) ==> add_supplier_spec(d, cat, s).suppliers == d.suppliers,
{
    if d.categories.contains(cat) && d.suppliers.contains_key(cat) {
        assert(add_supplier_spec(d, cat, s).suppliers.dom() =~= d.suppliers.dom());
    }
}

/// Updating a supplier with only new e-mails replaces its e-mail list whole and
/// leaves its name, phones, contacts and every other supplier as they were.
pub proof fn law_update_supplier_emails_only(
    d: DbView,
    cat: Seq<char>,
    old_name: Seq<char>,
    emails: Seq<Seq<char>>,
    j: int,
)
    requires
        d.suppliers.contains_key(cat),
        is_first_supplier(d.suppliers[cat], old_name, j),
    ensures
        ({
            let l = d.suppliers[cat];
            let r = update_supplier_spec(d, cat, old_name, None, Some(emails), None);
            &&& r.categories == d.categories
            &&& r.suppliers.dom() == d.suppliers.dom()
            &&& r.suppliers[cat].len() == l.len()
            &&& r.suppliers[cat][j].emails == emails
            &&& r.suppliers[cat][j].nume == l[j].nume
            &&& r.suppliers[cat][j].telefoane == l[j].telefoane
            &&& r.suppliers[cat][j].contacte == l[j].contacte
            &&& forall|k: int| 0 <= k < l.len() && k != j ==> r.suppliers[cat][k] == l[k]
        }),
{
    let l = d.suppliers[cat];
    let i = choose|i: int| is_first_supplier(l, old_name, i);
    if i < j {
        assert(l[i].nume == old_name);
    } else if j < i {
        assert(l[j].nume == old_name);
    }
    let r = update_supplier_spec(d, cat, old_name, None, Some(emails), None);
    assert(r.suppliers.dom() =~= d.suppliers.dom());
}

/// Removing a contact by name removes every contact of that name from the
/// supplier, duplicates included, and keeps the others in order.
pub proof fn law_remove_contact_all(
    d: DbView,
    cat: Seq<char>,
    sup: Seq<char>,
    name: Seq<char>,
    j: int,
)
    requires
        d.suppliers.contains_key(cat),
        is_first_supplier(d.suppliers[cat], sup, j),
    ensures
        ({
            let l = d.suppliers[cat];
            let r = remove_contact_spec(d, cat, sup, name).suppliers[cat][j].contacte;
            &&& r == l[j].contacte.filter(|c: ContactView| c.nume_contact != name)
            &&& forall|k: int| 0 <= k < r.len() ==> r[k].nume_contact != name
        }),
{
    broadcast use vstd::seq_lib::group_filter_ensures;

    let l = d.suppliers[cat];
    let i = choose|i: int| is_first_supplier(l, sup, i);
    if i < j {
        assert(l[i].nume == sup);
    } else if j < i {
        assert(l[j].nume == sup);
    }
    let r = remove_contact_spec(d, cat, sup, name).suppliers[cat][j].contacte;
    assert forall|k: int| 0 <= k < r.len() implies r[k].nume_contact != name by {
        assert((|c: ContactView| c.nume_contact != name)(r[k]));
    }
}

/// Adding a contact under a category that the mapping lacks leaves the
/// document as it was.
pub proof fn law_add_contact_missing_category(d: DbView, cat: Seq<char>, sup: Seq<char>, c: ContactView)
    requires
        !d.suppliers.contains_key(cat),
    ensures
        add_contact_spec(d, cat, sup, c) == d,
{
}

} // verus!

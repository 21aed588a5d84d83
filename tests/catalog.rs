use supplier_catalog::catalog::{
    add_category, add_contact, add_supplier, remove_category, remove_contact, remove_supplier,
    update_contact, update_supplier,
};
use supplier_catalog::get_db_path;
use supplier_catalog::model::{Contact, Supplier, DB};

fn s(x: &str) -> String {
    x.to_string()
}

fn contact(name: &str, email: &str, phone: &str) -> Contact {
    Contact { nume_contact: s(name), email: s(email), telefon: s(phone) }
}

fn supplier(name: &str, emails: &[&str], phones: &[&str]) -> Supplier {
    Supplier {
        nume: s(name),
        emails: emails.iter().map(|e| s(e)).collect(),
        telefoane: phones.iter().map(|p| s(p)).collect(),
        contacte: vec![],
    }
}

fn empty_db() -> DB {
    DB { categories: vec![], suppliers: vec![] }
}

fn db_with(cat: &str, sups: Vec<Supplier>) -> DB {
    DB { categories: vec![s(cat)], suppliers: vec![(s(cat), sups)] }
}

/// The suppliers that the mapping gives for `cat`: those of its last entry.
fn suppliers_of<'a>(db: &'a DB, cat: &str) -> Option<&'a Vec<Supplier>> {
    db.suppliers.iter().rev().find(|e| e.0 == cat).map(|e| &e.1)
}

fn keys(db: &DB) -> Vec<String> {
    db.suppliers.iter().map(|e| e.0.clone()).collect()
}

fn names(v: &[Supplier]) -> Vec<String> {
    v.iter().map(|x| x.nume.clone()).collect()
}

fn contact_names(v: &Supplier) -> Vec<String> {
    v.contacte.iter().map(|c| c.nume_contact.clone()).collect()
}

#[test]
fn scenario_supplier_and_contact_lifecycle() {
    let mut db = db_with("A", vec![]);
    add_supplier(&mut db, s("A"), supplier("X", &[], &[]));
    let list = suppliers_of(&db, "A").unwrap();
    assert_eq!(names(list), vec![s("X")]);

    add_contact(&mut db, s("A"), s("X"), contact("C1", "c@x.com", "123"));
    let x = &suppliers_of(&db, "A").unwrap()[0];
    assert_eq!(x.contacte.len(), 1);
    assert_eq!(x.contacte[0].nume_contact, "C1");

    update_contact(&mut db, s("A"), s("X"), s("C1"), None, Some(s("new@x.com")), None);
    let c = &suppliers_of(&db, "A").unwrap()[0].contacte[0];
    assert_eq!(c.nume_contact, "C1");
    assert_eq!(c.email, "new@x.com");
    assert_eq!(c.telefon, "123");

    remove_supplier(&mut db, s("A"), s("X"));
    assert_eq!(suppliers_of(&db, "A").unwrap().len(), 0);
    assert_eq!(db.categories, vec![s("A")]);
}

#[test]
fn scenario_add_contact_missing_category() {
    let mut db = db_with("A", vec![supplier("Y", &["y@y.ro"], &["1"])]);
    add_contact(&mut db, s("B"), s("Y"), contact("C", "c@c.ro", "2"));
    assert_eq!(db.categories, vec![s("A")]);
    assert_eq!(keys(&db), vec![s("A")]);
    assert!(suppliers_of(&db, "A").unwrap()[0].contacte.is_empty());
}

#[test]
fn add_category_appends_with_empty_list() {
    let mut db = empty_db();
    add_category(&mut db, s("Paint"));
    assert_eq!(db.categories, vec![s("Paint")]);
    assert_eq!(keys(&db), vec![s("Paint")]);
    assert!(suppliers_of(&db, "Paint").unwrap().is_empty());
}

#[test]
fn add_category_twice_is_once() {
    let mut once = empty_db();
    add_category(&mut once, s("A"));
    let mut twice = empty_db();
    add_category(&mut twice, s("A"));
    add_category(&mut twice, s("A"));
    assert_eq!(once.categories, twice.categories);
    assert_eq!(keys(&once), keys(&twice));
    assert_eq!(twice.categories, vec![s("A")]);
}

#[test]
fn add_category_existing_keeps_suppliers() {
    let mut db = db_with("A", vec![supplier("X", &[], &[])]);
    add_category(&mut db, s("A"));
    assert_eq!(db.categories, vec![s("A")]);
    assert_eq!(names(suppliers_of(&db, "A").unwrap()), vec![s("X")]);
}

#[test]
fn add_category_resets_stray_mapping_entry() {
    let mut db = DB { categories: vec![], suppliers: vec![(s("A"), vec![supplier("X", &[], &[])])] };
    add_category(&mut db, s("A"));
    assert_eq!(db.categories, vec![s("A")]);
    assert_eq!(keys(&db), vec![s("A")]);
    assert!(suppliers_of(&db, "A").unwrap().is_empty());
}

#[test]
fn remove_category_drops_list_and_mapping() {
    let mut db = DB {
        categories: vec![s("A"), s("B"), s("A")],
        suppliers: vec![(s("A"), vec![supplier("X", &[], &[])]), (s("B"), vec![])],
    };
    remove_category(&mut db, s("A"));
    assert_eq!(db.categories, vec![s("B")]);
    assert_eq!(keys(&db), vec![s("B")]);
    assert!(suppliers_of(&db, "A").is_none());
}

#[test]
fn remove_category_unknown_keeps_document() {
    let mut db = db_with("A", vec![]);
    remove_category(&mut db, s("Z"));
    assert_eq!(db.categories, vec![s("A")]);
    assert_eq!(keys(&db), vec![s("A")]);
}

#[test]
fn add_supplier_unknown_category_keeps_mapping() {
    let mut db = db_with("A", vec![]);
    add_supplier(&mut db, s("B"), supplier("X", &[], &[]));
    assert_eq!(keys(&db), vec![s("A")]);
    assert!(suppliers_of(&db, "A").unwrap().is_empty());
    assert!(suppliers_of(&db, "B").is_none());
}

#[test]
fn add_supplier_listed_category_without_entry_is_noop() {
    let mut db = DB { categories: vec![s("A")], suppliers: vec![] };
    add_supplier(&mut db, s("A"), supplier("X", &[], &[]));
    assert!(db.suppliers.is_empty());
}

#[test]
fn add_supplier_allows_duplicate_names() {
    let mut db = db_with("A", vec![supplier("X", &["a"], &[])]);
    add_supplier(&mut db, s("A"), supplier("X", &["b"], &[]));
    let list = suppliers_of(&db, "A").unwrap();
    assert_eq!(names(list), vec![s("X"), s("X")]);
    assert_eq!(list[1].emails, vec![s("b")]);
}

#[test]
fn remove_supplier_removes_every_duplicate() {
    let mut db = db_with(
        "A",
        vec![supplier("X", &[], &[]), supplier("Y", &[], &[]), supplier("X", &[], &[])],
    );
    remove_supplier(&mut db, s("A"), s("X"));
    assert_eq!(names(suppliers_of(&db, "A").unwrap()), vec![s("Y")]);
}

#[test]
fn update_supplier_emails_only() {
    let mut db = db_with("A", vec![supplier("X", &["old1@x.ro", "old2@x.ro"], &["0700"])]);
    update_supplier(&mut db, s("A"), s("X"), None, Some(vec![s("new@x.ro")]), None);
    let x = &suppliers_of(&db, "A").unwrap()[0];
    assert_eq!(x.nume, "X");
    assert_eq!(x.emails, vec![s("new@x.ro")]);
    assert_eq!(x.telefoane, vec![s("0700")]);
}

#[test]
fn update_supplier_first_match_only() {
    let mut db = db_with("A", vec![supplier("X", &[], &["1"]), supplier("X", &[], &["2"])]);
    update_supplier(&mut db, s("A"), s("X"), Some(s("Z")), None, Some(vec![]));
    let list = suppliers_of(&db, "A").unwrap();
    assert_eq!(names(list), vec![s("Z"), s("X")]);
    assert!(list[0].telefoane.is_empty());
    assert_eq!(list[1].telefoane, vec![s("2")]);
}

#[test]
fn update_supplier_no_match_keeps_document() {
    let mut db = db_with("A", vec![supplier("X", &["e"], &[])]);
    update_supplier(&mut db, s("A"), s("Q"), Some(s("Z")), Some(vec![]), None);
    let list = suppliers_of(&db, "A").unwrap();
    assert_eq!(names(list), vec![s("X")]);
    assert_eq!(list[0].emails, vec![s("e")]);
}

#[test]
fn add_contact_to_first_supplier() {
    let mut db = db_with("A", vec![supplier("X", &[], &[]), supplier("X", &[], &[])]);
    add_contact(&mut db, s("A"), s("X"), contact("C", "", ""));
    let list = suppliers_of(&db, "A").unwrap();
    assert_eq!(contact_names(&list[0]), vec![s("C")]);
    assert!(list[1].contacte.is_empty());
}

#[test]
fn add_contact_missing_supplier_is_noop() {
    let mut db = db_with("A", vec![supplier("X", &[], &[])]);
    add_contact(&mut db, s("A"), s("Y"), contact("C", "", ""));
    assert!(suppliers_of(&db, "A").unwrap()[0].contacte.is_empty());
}

#[test]
fn remove_contact_removes_every_duplicate() {
    let mut x = supplier("X", &[], &[]);
    x.contacte = vec![contact("C", "1", ""), contact("D", "", ""), contact("C", "2", "")];
    let mut db = db_with("A", vec![x]);
    remove_contact(&mut db, s("A"), s("X"), s("C"));
    assert_eq!(contact_names(&suppliers_of(&db, "A").unwrap()[0]), vec![s("D")]);
}

#[test]
fn update_contact_first_match_only() {
    let mut x = supplier("X", &[], &[]);
    x.contacte = vec![contact("C", "a", "1"), contact("C", "b", "2")];
    let mut db = db_with("A", vec![x]);
    update_contact(&mut db, s("A"), s("X"), s("C"), Some(s("D")), None, Some(s("9")));
    let x = &suppliers_of(&db, "A").unwrap()[0];
    assert_eq!(contact_names(x), vec![s("D"), s("C")]);
    assert_eq!(x.contacte[0].email, "a");
    assert_eq!(x.contacte[0].telefon, "9");
    assert_eq!(x.contacte[1].telefon, "2");
}

#[test]
fn update_contact_missing_contact_is_noop() {
    let mut x = supplier("X", &[], &[]);
    x.contacte = vec![contact("C", "a", "1")];
    let mut db = db_with("A", vec![x]);
    update_contact(&mut db, s("A"), s("X"), s("Q"), Some(s("D")), Some(s("z")), None);
    let c = &suppliers_of(&db, "A").unwrap()[0].contacte[0];
    assert_eq!((c.nume_contact.as_str(), c.email.as_str()), ("C", "a"));
}

#[test]
fn db_path_is_fixed() {
    assert!(get_db_path().ends_with("suppliers_db.json"));
    assert_eq!(get_db_path(), supplier_catalog::DB_PATH);
}

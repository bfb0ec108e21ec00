use restlib::store::Book;
use restlib::store::BookTable;
use restlib::store::Reader;
use restlib::store::ReaderTable;

#[test]
fn creates_assign_sequential_ids_from_empty() {
    let mut table = ReaderTable::new();
    let a = table.create(String::from("Ada"), String::from("Lovelace"));
    let b = table.create(String::from("Mary"), String::from("Shelley"));
    let c = table.create(String::from("George"), String::from("Eliot"));
    assert_eq!(a.id, 1);
    assert_eq!(b.id, 2);
    assert_eq!(c.id, 3);
}

#[test]
fn create_returns_the_row_read_back() {
    let mut table = ReaderTable::new();
    let r = table.create(String::from("Ada"), String::from("Lovelace"));
    assert_eq!(r.id, 1);
    assert_eq!(r.firstname, "Ada");
    assert_eq!(r.surname, "Lovelace");
    assert!(r.read_books.is_empty());
}

#[test]
fn fetch_latest_returns_the_max_id_row() {
    let mut table = ReaderTable::new();
    table.create(String::from("Ada"), String::from("Lovelace"));
    table.create(String::from("Mary"), String::from("Shelley"));
    let latest = table.fetch_latest().unwrap();
    assert_eq!(latest.id, 2);
    assert_eq!(latest.firstname, "Mary");
    assert_eq!(latest.surname, "Shelley");
}

#[test]
fn fetch_latest_on_empty_table_is_none() {
    let table = ReaderTable::new();
    assert!(table.fetch_latest().is_none());
}

#[test]
fn create_then_delete_restores_the_table() {
    let mut table = ReaderTable::new();
    table.create(String::from("Ada"), String::from("Lovelace"));
    let before = table.fetch_latest().unwrap();
    let created = table.create(String::from("Mary"), String::from("Shelley"));
    table.delete(created.id);
    let after = table.fetch_latest().unwrap();
    assert_eq!(after.id, before.id);
    assert_eq!(after.firstname, before.firstname);
    assert_eq!(after.surname, before.surname);
}

#[test]
fn delete_of_absent_id_is_treated_as_success() {
    let mut table = ReaderTable::new();
    table.create(String::from("Ada"), String::from("Lovelace"));
    table.delete(42);
    let latest = table.fetch_latest().unwrap();
    assert_eq!(latest.id, 1);
    assert_eq!(latest.firstname, "Ada");
}

#[test]
fn id_after_delete_is_one_past_the_remaining_max() {
    let mut table = ReaderTable::new();
    table.create(String::from("Ada"), String::from("Lovelace"));
    table.create(String::from("Mary"), String::from("Shelley"));
    table.delete(1);
    let c = table.create(String::from("George"), String::from("Eliot"));
    assert_eq!(c.id, 3);
}

#[test]
fn reader_create_and_delete_through_the_record_type() {
    let mut table = ReaderTable::new();
    let r = Reader::create(String::from("Ada"), String::from("Lovelace"), &mut table);
    assert_eq!(r.id, 1);
    Reader::delete(r, &mut table);
    assert!(table.fetch_latest().is_none());
}

#[test]
fn book_ids_are_sequential_too() {
    let mut table = BookTable::new();
    let a = Book::new(String::from("Frankenstein"), &mut table);
    let b = Book::new(String::from("Middlemarch"), &mut table);
    assert_eq!(a.id, 1);
    assert_eq!(b.id, 2);
    assert_eq!(b.name, "Middlemarch");
    let latest = table.fetch_latest().unwrap();
    assert_eq!(latest.id, 2);
    assert_eq!(latest.name, "Middlemarch");
}

#[test]
fn book_create_then_delete_restores_the_table() {
    let mut table = BookTable::new();
    let a = Book::new(String::from("Frankenstein"), &mut table);
    let b = Book::new(String::from("Middlemarch"), &mut table);
    Book::delete(b, &mut table);
    let latest = table.fetch_latest().unwrap();
    assert_eq!(latest.id, a.id);
    assert_eq!(latest.name, "Frankenstein");
}

use bw::commands::{all_notes, format_book_listing, format_status, get_note_from_page, list_books, note_index_for_page};
use bw::model::{book_at, default_settings, delete_book, finish_book, new_book, note, Book, LibError, Note};

fn dune_library() -> Vec<Book> {
    let mut books: Vec<Book> = Vec::new();
    new_book(&mut books, "Dune".to_string(), "Herbert".to_string());
    note(&mut books, 0, 30, "intro".to_string()).unwrap();
    note(&mut books, 0, 60, "middle".to_string()).unwrap();
    finish_book(&mut books, 0, "great book".to_string()).unwrap();
    books
}

fn three_books() -> Vec<Book> {
    let mut books: Vec<Book> = Vec::new();
    new_book(&mut books, "A".to_string(), "a".to_string());
    new_book(&mut books, "B".to_string(), "b".to_string());
    new_book(&mut books, "C".to_string(), "c".to_string());
    books
}

#[test]
fn new_book_on_empty_library() {
    let mut books: Vec<Book> = Vec::new();
    new_book(&mut books, "Dune".to_string(), "Herbert".to_string());
    assert_eq!(books.len(), 1);
    assert_eq!(books[0].name, "Dune");
    assert_eq!(books[0].author, "Herbert");
    assert_eq!(books[0].page, 0);
    assert_eq!(books[0].notes.len(), 0);
}

#[test]
fn notes_chain_page_ranges() {
    let mut books: Vec<Book> = Vec::new();
    new_book(&mut books, "Dune".to_string(), "Herbert".to_string());
    assert_eq!(note(&mut books, 0, 30, "intro".to_string()), Ok(()));
    assert_eq!(books[0].page, 31);
    assert_eq!(books[0].notes.len(), 1);
    assert_eq!(books[0].notes[0].start, 0);
    assert_eq!(books[0].notes[0].end, 30);
    assert_eq!(books[0].notes[0].note, "intro");
    assert_eq!(note(&mut books, 0, 60, "middle".to_string()), Ok(()));
    assert_eq!(books[0].page, 61);
    assert_eq!(books[0].notes[1].start, 31);
    assert_eq!(books[0].notes[1].end, 60);
    assert_eq!(books[0].notes[1].note, "middle");
}

#[test]
fn finishing_writes_final_thoughts() {
    let books = dune_library();
    let last = &books[0].notes[2];
    assert_eq!(last.start, 61);
    assert_eq!(last.end, 65534);
    assert_eq!(last.note, "great book");
    assert_eq!(books[0].page, 65535);
}

#[test]
fn scenario_page_lookups() {
    let books = dune_library();
    let s = default_settings();
    assert_eq!(get_note_from_page(&books, 0, 45, &s), Ok("p.31-p.60\nmiddle\n".to_string()));
    assert_eq!(get_note_from_page(&books, 0, 10, &s), Ok("p.0-p.30\nintro\n".to_string()));
    assert_eq!(get_note_from_page(&books, 0, 9999, &s), Err(LibError::NoNoteForPage));
    assert_eq!(get_note_from_page(&books, 1, 10, &s), Err(LibError::BookIndexOutOfRange));
}

#[test]
fn lookup_takes_first_of_overlapping_notes() {
    let notes = vec![
        Note { start: 0, end: 10, note: "a".to_string() },
        Note { start: 5, end: 20, note: "b".to_string() },
    ];
    assert_eq!(note_index_for_page(&notes, 7), Some(0));
    assert_eq!(note_index_for_page(&notes, 15), Some(1));
    assert_eq!(note_index_for_page(&notes, 21), None);
    let empty: Vec<Note> = Vec::new();
    assert_eq!(note_index_for_page(&empty, 0), None);
}

#[test]
fn note_on_missing_book_is_refused() {
    let mut books = three_books();
    assert_eq!(note(&mut books, 3, 10, "x".to_string()), Err(LibError::BookIndexOutOfRange));
    assert_eq!(finish_book(&mut books, 7, "x".to_string()), Err(LibError::BookIndexOutOfRange));
    assert_eq!(books.len(), 3);
    assert_eq!(books[0].notes.len(), 0);
}

#[test]
fn note_ending_on_last_page_number_is_refused() {
    let mut books = three_books();
    assert_eq!(note(&mut books, 0, 65535, "x".to_string()), Err(LibError::InvalidNumericInput));
    assert_eq!(books[0].page, 0);
    assert_eq!(books[0].notes.len(), 0);
}

#[test]
fn delete_second_of_three() {
    let mut books = three_books();
    assert_eq!(delete_book(&mut books, 1), Ok(()));
    assert_eq!(books.len(), 2);
    assert_eq!(books[0].name, "A");
    assert_eq!(books[1].name, "C");
}

#[test]
fn delete_out_of_range() {
    let mut books = three_books();
    assert_eq!(delete_book(&mut books, 3), Err(LibError::BookIndexOutOfRange));
    assert_eq!(books.len(), 3);
    let mut empty: Vec<Book> = Vec::new();
    assert_eq!(delete_book(&mut empty, 0), Err(LibError::BookIndexOutOfRange));
}

#[test]
fn walks_over_notes() {
    let books = dune_library();
    let s = default_settings();
    let intro = "p.0-p.30\nintro\n\n";
    let middle = "p.31-p.60\nmiddle\n\n";
    let last = "Final thoughts\ngreat book\n\n";
    assert_eq!(all_notes(&books, 0, 0, 1, &s), Ok(format!("{intro}{middle}{last}")));
    assert_eq!(all_notes(&books, 0, 0, 2, &s), Ok(format!("{intro}{last}")));
    assert_eq!(all_notes(&books, 0, 1, 2, &s), Ok(middle.to_string()));
    assert_eq!(all_notes(&books, 0, 2, 5, &s), Ok(last.to_string()));
}

#[test]
fn walk_past_the_end_finds_nothing() {
    let books = dune_library();
    let s = default_settings();
    assert_eq!(all_notes(&books, 0, 3, 1, &s), Ok("No notes found =(\n".to_string()));
    let fresh = three_books();
    assert_eq!(all_notes(&fresh, 2, 0, 1, &s), Ok("No notes found =(\n".to_string()));
}

#[test]
fn walk_errors() {
    let books = dune_library();
    let s = default_settings();
    assert_eq!(all_notes(&books, 0, 0, 0, &s), Err(LibError::InvalidNumericInput));
    assert_eq!(all_notes(&books, 1, 0, 1, &s), Err(LibError::BookIndexOutOfRange));
}

#[test]
fn status_texts() {
    let s = default_settings();
    assert_eq!(format_status(0, &s), "Just started");
    assert_eq!(format_status(65535, &s), "Done!");
    assert_eq!(format_status(42, &s), "p.42");
    assert_eq!(format_status(65534, &s), "p.65534");
}

#[test]
fn book_listing_columns() {
    let s = default_settings();
    let line = format_book_listing("Dune".to_string(), "Herbert".to_string(), 31, 0, &s);
    assert_eq!(line, format!("{: <8} {: <37} {: <19} {}", 0, "Dune", "Herbert", "p.31"));
    assert_eq!(line, "0        Dune                                  Herbert             p.31");
    let long = "x".repeat(40);
    let line = format_book_listing(long.clone(), "A".to_string(), 0, 12345, &s);
    assert_eq!(line, format!("12345    {long} A                   Just started"));
}

#[test]
fn listing_skips_finished_books() {
    let s = default_settings();
    let mut books = three_books();
    finish_book(&mut books, 1, "done".to_string()).unwrap();
    let open = list_books(&books, false, &s);
    let a = format_book_listing("A".to_string(), "a".to_string(), 0, 0, &s);
    let b = format_book_listing("B".to_string(), "b".to_string(), 65535, 1, &s);
    let c = format_book_listing("C".to_string(), "c".to_string(), 0, 2, &s);
    assert_eq!(open, format!("{a}\n{c}\n"));
    assert!(open.contains("2        C"));
    assert_eq!(list_books(&books, true, &s), format!("{a}\n{b}\n{c}\n"));
}

#[test]
fn listing_of_empty_library() {
    let s = default_settings();
    let books: Vec<Book> = Vec::new();
    assert_eq!(list_books(&books, false, &s), "");
    assert_eq!(list_books(&books, true, &s), "");
}

#[test]
fn page_lookup_uses_settings() {
    let mut s = default_settings();
    s.page_ref_prefix = "[".to_string();
    s.page_ref_infix = "..".to_string();
    s.page_ref_suffix = "]".to_string();
    let books = dune_library();
    assert_eq!(get_note_from_page(&books, 0, 31, &s), Ok("[31..60]\nmiddle\n".to_string()));
    assert_eq!(format_status(7, &s), "[7]");
}

#[test]
fn book_lookup_by_index() {
    let books = three_books();
    assert_eq!(book_at(&books, 2).map(|b| b.name.clone()), Ok("C".to_string()));
    assert_eq!(book_at(&books, 3).map(|b| b.name.clone()), Err(LibError::BookIndexOutOfRange));
}

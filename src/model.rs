use vstd::prelude::*;

verus! {

/// What can go wrong in an operation on the library.
#[derive(PartialEq, Eq, Structural, Debug, Clone, Copy)]
pub enum LibError {
    /// No book stands at the given index.
    BookIndexOutOfRange,
    /// No note of the book covers the given page.
    NoNoteForPage,
    /// The stored library could not be parsed.
    StorageCorrupt,
    /// The stored library could not be opened, created or written.
    StorageUnavailable,
    /// A number was malformed, too large, or not allowed where it was given.
    InvalidNumericInput,
}

/// A note on a range of pages of a book.
pub struct Note {
    pub start: u16,
    pub end: u16,
    pub note: String,
}

/// The `end` of a note that holds a reader's final thoughts on a book.
pub const FINAL_THOUGHTS: u16 = 65534;

/// The page cursor of a book that has been read to the end.
pub const FINISHED: u16 = 65535;

} // verus!

verus! {

/// A book of the library: what it is, how far it has been read, and its notes in
/// the order they were written.
pub struct Book {
    pub name: String,
    pub author: String,
    /// The next page to read: 0 before the first note, `FINISHED` once read.
    pub page: u16,
    pub notes: Vec<Note>,
}

/// The text templates that decorate what the library shows.
pub struct Settings {
    pub welcome_message: String,
    pub welcome_delay: u8,
    pub prompt: String,
    pub prompt_user_prefix: String,
    pub prompt_user_suffix: String,
    pub page_ref_prefix: String,
    pub page_ref_infix: String,
    pub page_ref_suffix: String,
}

/// The settings written out when none exist yet.
pub fn default_settings() -> (r: Settings)
    ensures
        r.welcome_message@ == "WELCOME"@,
        r.welcome_delay == 100,
        r.prompt@ == ":> "@,
        r.prompt_user_prefix@ == "< "@,
        r.prompt_user_suffix@ == ": "@,
        r.page_ref_prefix@ == "p."@,
        r.page_ref_infix@ == "-p."@,
        r.page_ref_suffix@ == ""@,
{
    Settings {
        welcome_message: String::from_str("WELCOME"),
        welcome_delay: 100,
        prompt: String::from_str(":> "),
        prompt_user_prefix: String::from_str("< "),
        prompt_user_suffix: String::from_str(": "),
        page_ref_prefix: String::from_str("p."),
        page_ref_infix: String::from_str("-p."),
        page_ref_suffix: String::from_str(""),
    }
}

/// The book at `book_index`.
pub fn book_at(books: &Vec<Book>, book_index: u16) -> (r: Result<&Book, LibError>)
    ensures
        book_index < books@.len() ==> r is Ok && *r->Ok_0 == books@[book_index as int],
        book_index >= books@.len() ==> r is Err && r->Err_0 == LibError::BookIndexOutOfRange,
{
    if (book_index as usize) < books.len() {
        Ok(&books[book_index as usize])
    } else {
        Err(LibError::BookIndexOutOfRange)
    }
}

/// Appends a new, unstarted book with no notes.
pub fn new_book(books: &mut Vec<Book>, name: String, author: String)
    ensures
        final(books)@.len() == old(books)@.len() + 1,
        forall|j: int| 0 <= j < old(books)@.len() ==> final(books)@[j] == old(books)@[j],
        final(books)@.last().name == name,
        final(books)@.last().author == author,
        final(books)@.last().page == 0,
        final(books)@.last().notes@.len() == 0,
{
    books.push(Book { name, author, page: 0, notes: Vec::new() });
}

/// Removes the book at `book_index`; the books after it move down by one.
pub fn delete_book(books: &mut Vec<Book>, book_index: u16) -> (r: Result<(), LibError>)
    ensures
        book_index < old(books)@.len() ==> r is Ok && final(books)@ == old(books)@.remove(
            book_index as int,
        ),
        book_index >= old(books)@.len() ==> r == Err::<(), LibError>(LibError::BookIndexOutOfRange)
            && final(books)@ == old(books)@,
{
    if (book_index as usize) < books.len() {
        books.remove(book_index as usize);
        Ok(())
    } else {
        Err(LibError::BookIndexOutOfRange)
    }
}

/// Records a note on the book at `book_index` that runs from the book's page cursor
/// to `end_page`, and moves the cursor to the page after `end_page`. A cursor past
/// the last page number cannot be held, so an `end_page` of 65535 is refused.
pub fn note(books: &mut Vec<Book>, book_index: u16, end_page: u16, text: String) -> (r: Result<
    (),
    LibError,
>)
    ensures
        book_index >= old(books)@.len() ==> r == Err::<(), LibError>(LibError::BookIndexOutOfRange)
            && final(books)@ == old(books)@,
        book_index < old(books)@.len() && end_page == 65535 ==> r == Err::<(), LibError>(
            LibError::InvalidNumericInput,
        ) && final(books)@ == old(books)@,
        book_index < old(books)@.len() && end_page < 65535 ==> {
            let i = book_index as int;
            let before = old(books)@[i];
            let after = final(books)@[i];
            &&& r is Ok
            &&& final(books)@.len() == old(books)@.len()
            &&& forall|j: int|
                0 <= j < old(books)@.len() && j != i ==> final(books)@[j] == old(books)@[j]
            &&& after.name == before.name
            &&& after.author == before.author
            &&& after.notes@ == before.notes@.push(
                Note { start: before.page, end: end_page, note: text },
            )
            &&& after.page == end_page + 1
        },
{
    if (book_index as usize) >= books.len() {
        return Err(LibError::BookIndexOutOfRange);
    }
    if end_page == 65535 {
        return Err(LibError::InvalidNumericInput);
    }
    let i = book_index as usize;
    let ghost before = books@;
    let mut book = books.remove(i);
    let start = book.page;
    book.notes.push(Note { start, end: end_page, note: text });
    book.page = end_page + 1;
    books.insert(i, book);
    proof {
        assert forall|j: int| 0 <= j < before.len() && j != i implies books@[j] == before[j] by {
            if j < i {
                assert(books@[j] == before.remove(i as int)[j]);
            } else {
                assert(books@[j] == before.remove(i as int)[j - 1]);
            }
        }
    }
    Ok(())
}

/// Records final thoughts on the book at `book_index`: a note that ends at
/// `FINAL_THOUGHTS`. This moves the page cursor to `FINISHED`, which is what
/// marks the book as read.
pub fn finish_book(books: &mut Vec<Book>, book_index: u16, text: String) -> (r: Result<
    (),
    LibError,
>)
    ensures
        book_index >= old(books)@.len() ==> r == Err::<(), LibError>(LibError::BookIndexOutOfRange)
            && final(books)@ == old(books)@,
        book_index < old(books)@.len() ==> {
            let i = book_index as int;
            let before = old(books)@[i];
            let after = final(books)@[i];
            &&& r is Ok
            &&& final(books)@.len() == old(books)@.len()
            &&& forall|j: int|
                0 <= j < old(books)@.len() && j != i ==> final(books)@[j] == old(books)@[j]
            &&& after.name == before.name
            &&& after.author == before.author
            &&& after.notes@ == before.notes@.push(
                Note { start: before.page, end: FINAL_THOUGHTS, note: text },
            )
            &&& after.page == FINISHED
        },
{
    note(books, book_index, FINAL_THOUGHTS, text)
}

} // verus!

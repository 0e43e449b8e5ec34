use vstd::prelude::*;

use crate::model::{book_at, Book, LibError, Note, Settings, FINAL_THOUGHTS, FINISHED};
use crate::text::{decimal, padded, pad_right, to_decimal};

verus! {

/// A page range as the settings decorate it, such as `p.7-p.31`.
pub open spec fn range_label(s: Settings, start: u16, end: u16) -> Seq<char> {
    s.page_ref_prefix@ + decimal(start as nat) + s.page_ref_infix@ + decimal(end as nat)
        + s.page_ref_suffix@
}

/// A note covers a page when the page lies in its range; final thoughts cover none.
pub open spec fn covers(n: Note, page: u16) -> bool {
    n.end != FINAL_THOUGHTS && n.start <= page && page <= n.end
}

pub open spec fn is_first_cover(notes: Seq<Note>, page: u16, i: int) -> bool {
    &&& 0 <= i < notes.len()
    &&& covers(notes[i], page)
    &&& forall|j: int| 0 <= j < i ==> !covers(#[trigger] notes[j], page)
}

/// The position of the earliest note that covers `page`, if any does.
pub open spec fn first_cover(notes: Seq<Note>, page: u16) -> Option<int> {
    if exists|i: int| is_first_cover(notes, page, i) {
        Some(choose|i: int| is_first_cover(notes, page, i))
    } else {
        None
    }
}

/// A note as shown when it is looked up by page.
pub open spec fn page_note_text(s: Settings, n: Note) -> Seq<char> {
    range_label(s, n.start, n.end) + seq!['\n'] + n.note@ + seq!['\n']
}

proof fn lemma_first_cover_is(notes: Seq<Note>, page: u16, i: int)
    requires
        is_first_cover(notes, page, i),
    ensures
        first_cover(notes, page) == Some(i),
{
    let k = choose|k: int| is_first_cover(notes, page, k);
    assert(is_first_cover(notes, page, k));
    if k < i {
        assert(!covers(notes[k], page));
    } else if i < k {
        assert(!covers(notes[i], page));
    }
}

/// When exactly one note covers `page`, the lookup finds that note; when none
/// does, it finds nothing.
pub proof fn lemma_sole_cover(notes: Seq<Note>, page: u16, i: int)
    requires
        0 <= i < notes.len(),
        covers(notes[i], page),
        forall|j: int| 0 <= j < notes.len() && j != i ==> !covers(#[trigger] notes[j], page),
    ensures
        first_cover(notes, page) == Some(i),
{
    lemma_first_cover_is(notes, page, i);
}

/// When no note covers `page`, the lookup finds nothing.
pub proof fn lemma_no_cover(notes: Seq<Note>, page: u16)
    requires
        forall|j: int| 0 <= j < notes.len() ==> !covers(#[trigger] notes[j], page),
    ensures
        first_cover(notes, page) is None,
{
}

/// The position of the earliest note that covers `page`.
pub fn note_index_for_page(notes: &Vec<Note>, page: u16) -> (r: Option<usize>)
    ensures
        r is Some ==> first_cover(notes@, page) == Some(r->Some_0 as int),
        r is None ==> first_cover(notes@, page) is None,
{
    let mut i: usize = 0;
    while i < notes.len()
        invariant
            0 <= i <= notes@.len(),
            forall|j: int| 0 <= j < i ==> !covers(#[trigger] notes@[j], page),
        decreases notes@.len() - i,
    {
        let n = &notes[i];
        if n.end != FINAL_THOUGHTS && n.start <= page && page <= n.end {
            proof {
                lemma_first_cover_is(notes@, page, i as int);
            }
            return Some(i);
        }
        i = i + 1;
    }
    None
}

fn range_string(start: u16, end: u16, settings: &Settings) -> (r: String)
    ensures
        r@ == range_label(*settings, start, end),
{
    let mut r = String::new();
    r.append(settings.page_ref_prefix.as_str());
    let a = to_decimal(start);
    r.append(a.as_str());
    r.append(settings.page_ref_infix.as_str());
    let b = to_decimal(end);
    r.append(b.as_str());
    r.append(settings.page_ref_suffix.as_str());
    assert(r@ =~= range_label(*settings, start, end));
    r
}

/// The note of the book at `book_index` that covers `page`, shown with its range.
pub fn get_note_from_page(books: &Vec<Book>, book_index: u16, page: u16, settings: &Settings) -> (r:
    Result<String, LibError>)
    ensures
        book_index >= books@.len() ==> r == Err::<String, LibError>(
            LibError::BookIndexOutOfRange,
        ),
        book_index < books@.len() ==> {
            let notes = books@[book_index as int].notes@;
            match first_cover(notes, page) {
                Some(i) => r is Ok && r->Ok_0@ == page_note_text(*settings, notes[i]),
                None => r == Err::<String, LibError>(LibError::NoNoteForPage),
            }
        },
{
    let book = match book_at(books, book_index) {
        Ok(b) => b,
        Err(e) => return Err(e),
    };
    match note_index_for_page(&book.notes, page) {
        Some(i) => {
            let n = &book.notes[i];
            let mut r = range_string(n.start, n.end, settings);
            proof {
                reveal_strlit("\n");
            }
            r.append("\n");
            r.append(n.note.as_str());
            r.append("\n");
            assert(r@ =~= page_note_text(*settings, *n));
            Ok(r)
        },
        None => Err(LibError::NoNoteForPage),
    }
}

/// How far a book has been read, as shown in a listing.
pub open spec fn status_text(s: Settings, page: u16) -> Seq<char> {
    if page == 0 {
        "Just started"@
    } else if page == FINISHED {
        "Done!"@
    } else {
        s.page_ref_prefix@ + decimal(page as nat) + s.page_ref_suffix@
    }
}

/// One line of a listing: the index, title and author in columns, then the status.
pub open spec fn book_line(s: Settings, name: Seq<char>, author: Seq<char>, page: u16, index: nat) -> Seq<
    char,
> {
    padded(decimal(index), 8) + seq![' '] + padded(name, 37) + seq![' '] + padded(author, 19)
        + seq![' '] + status_text(s, page)
}

/// Whether a listing shows a book: finished books only when all are asked for.
pub open spec fn shown(b: Book, all: bool) -> bool {
    all || b.page != FINISHED
}

/// The positions of the books that a listing shows, in library order.
pub open spec fn listed(books: Seq<Book>, all: bool) -> Seq<int>
    decreases books.len(),
{
    if books.len() == 0 {
        Seq::empty()
    } else {
        let prev = listed(books.drop_last(), all);
        if shown(books.last(), all) {
            prev.push(books.len() - 1)
        } else {
            prev
        }
    }
}

/// The lines of the books at positions `idx`, each ended by a newline.
pub open spec fn listing_lines(s: Settings, books: Seq<Book>, idx: Seq<int>) -> Seq<char>
    decreases idx.len(),
{
    if idx.len() == 0 {
        Seq::empty()
    } else {
        let b = books[idx.last()];
        listing_lines(s, books, idx.drop_last()) + book_line(
            s,
            b.name@,
            b.author@,
            b.page,
            idx.last() as nat,
        ) + seq!['\n']
    }
}

/// A listing of the library.
pub open spec fn listing(s: Settings, books: Seq<Book>, all: bool) -> Seq<char> {
    listing_lines(s, books, listed(books, all))
}

/// A listing shows exactly the books that are not finished, or all books when
/// asked for all, each under its own position in the library and in library order.
pub proof fn lemma_listed(books: Seq<Book>, all: bool)
    ensures
        forall|i: int|
            #![trigger listed(books, all).contains(i)]
            listed(books, all).contains(i) <==> 0 <= i < books.len() && shown(books[i], all),
        forall|a: int, b: int|
            0 <= a < b < listed(books, all).len() ==> listed(books, all)[a] < listed(
                books,
                all,
            )[b],
        all ==> listed(books, all) == Seq::new(books.len(), |i: int| i),
    decreases books.len(),
{
    if books.len() > 0 {
        let t = books.drop_last();
        lemma_listed(t, all);
        let prev = listed(t, all);
        assert forall|i: int| #![trigger listed(books, all).contains(i)]
            listed(books, all).contains(i) <==> 0 <= i < books.len() && shown(books[i], all) by {
            if 0 <= i < books.len() - 1 {
                assert(t[i] == books[i]);
            }
            if shown(books.last(), all) {
                assert(prev.push(books.len() - 1).contains(i) <==> prev.contains(i) || i
                    == books.len() - 1) by {
                    if i == books.len() - 1 {
                        assert(prev.push(books.len() - 1)[prev.len() as int] == i);
                    }
                    if prev.contains(i) {
                        let k = choose|k: int| 0 <= k < prev.len() && prev[k] == i;
                        assert(prev.push(books.len() - 1)[k] == i);
                    }
                }
            }
        }
        if all {
            assert(listed(books, all) =~= Seq::new(books.len(), |i: int| i));
        }
        assert forall|a: int, b: int| 0 <= a < b < listed(books, all).len() implies listed(
            books,
            all,
        )[a] < listed(books, all)[b] by {
            if b == prev.len() {
                assert(prev.contains(prev[a]));
            }
        }
    } else {
        assert(listed(books, all) =~= Seq::new(books.len(), |i: int| i));
    }
}

/// How far a book has been read: unstarted, finished, or the page to read next.
pub fn format_status(page: u16, settings: &Settings) -> (r: String)
    ensures
        r@ == status_text(*settings, page),
{
    if page == 0 {
        String::from_str("Just started")
    } else if page == FINISHED {
        String::from_str("Done!")
    } else {
        let mut r = String::new();
        r.append(settings.page_ref_prefix.as_str());
        let d = to_decimal(page);
        r.append(d.as_str());
        r.append(settings.page_ref_suffix.as_str());
        assert(r@ =~= status_text(*settings, page));
        r
    }
}

/// One line of a listing of the library for the book at position `index`.
pub fn format_book_listing(name: String, author: String, page: u16, index: u16, settings: &Settings) -> (r:
    String)
    ensures
        r@ == book_line(*settings, name@, author@, page, index as nat),
{
    proof {
        reveal_strlit(" ");
    }
    let d = to_decimal(index);
    let mut r = pad_right(d.as_str(), 8);
    r.append(" ");
    let n = pad_right(name.as_str(), 37);
    r.append(n.as_str());
    r.append(" ");
    let a = pad_right(author.as_str(), 19);
    r.append(a.as_str());
    r.append(" ");
    let st = format_status(page, settings);
    r.append(st.as_str());
    assert(r@ =~= book_line(*settings, name@, author@, page, index as nat));
    r
}

/// Lists the books of the library, one line each, leaving finished books out
/// unless `list_finished_too`. Each line carries the book's position in the library;
/// positions are 16-bit numbers, so the library can hold at most 65536 books.
pub fn list_books(books: &Vec<Book>, list_finished_too: bool, settings: &Settings) -> (r: String)
    requires
        books@.len() <= 65536,
    ensures
        r@ == listing(*settings, books@, list_finished_too),
{
    let mut message = String::new();
    let mut i: usize = 0;
    while i < books.len()
        invariant
            0 <= i <= books@.len() <= 65536,
            message@ == listing_lines(
                *settings,
                books@,
                listed(books@.take(i as int), list_finished_too),
            ),
        decreases books@.len() - i,
    {
        let book = &books[i];
        let ghost pre = books@.take(i as int);
        let ghost cur = books@.take(i as int + 1);
        assert(cur.drop_last() =~= pre);
        assert(cur.last() == books@[i as int]);
        if book.page != FINISHED || list_finished_too {
            let line = format_book_listing(
                book.name.clone(),
                book.author.clone(),
                book.page,
                i as u16,
                settings,
            );
            message.append(line.as_str());
            message.append("\n");
            proof {
                reveal_strlit("\n");
                let idx = listed(cur, list_finished_too);
                assert(idx == listed(pre, list_finished_too).push(i as int));
                assert(idx.drop_last() =~= listed(pre, list_finished_too));
                assert(idx.last() == i as int);
                assert(message@ =~= listing_lines(*settings, books@, idx));
            }
        } else {
            assert(listed(cur, list_finished_too) == listed(pre, list_finished_too));
        }
        i = i + 1;
    }
    assert(books@.take(i as int) =~= books@);
    message
}

/// How many positions below `len` a walk from `start` by `step` visits.
pub open spec fn walk_len(start: int, step: int, len: int) -> int {
    if start >= len {
        0
    } else {
        (len - start - 1) / step + 1
    }
}

/// The positions below `len` visited from `start` in strides of `step`, in order.
pub open spec fn walk(start: int, step: int, len: int) -> Seq<int> {
    Seq::new(walk_len(start, step, len) as nat, |k: int| start + k * step)
}

/// A note as shown in a walk over a book's notes.
pub open spec fn note_block(s: Settings, n: Note) -> Seq<char> {
    (if n.end == FINAL_THOUGHTS {
        "Final thoughts\n"@
    } else {
        range_label(s, n.start, n.end) + seq!['\n']
    }) + n.note@ + "\n\n"@
}

/// The notes at positions `ps`, one after the other.
pub open spec fn blocks(s: Settings, notes: Seq<Note>, ps: Seq<int>) -> Seq<char>
    decreases ps.len(),
{
    if ps.len() == 0 {
        Seq::empty()
    } else {
        blocks(s, notes, ps.drop_last()) + note_block(s, notes[ps.last()])
    }
}

/// What a walk over a book's notes shows.
pub open spec fn walk_text(s: Settings, notes: Seq<Note>, start: int, step: int) -> Seq<char> {
    let t = blocks(s, notes, walk(start, step, notes.len() as int));
    if t.len() == 0 {
        "No notes found =(\n"@
    } else {
        t
    }
}

proof fn lemma_walk_len_step(start: int, step: int, len: int, k: int)
    requires
        0 <= start,
        step > 0,
        0 <= k,
        start + k * step < len,
    ensures
        k < walk_len(start, step, len),
        start + (k + 1) * step < len ==> k + 1 < walk_len(start, step, len),
        start + (k + 1) * step >= len ==> k + 1 == walk_len(start, step, len),
{
    let x = len - start - 1;
    assert(k * step <= x);
    assert(k <= x / step) by (nonlinear_arith)
        requires
            k * step <= x,
            step > 0,
            k >= 0,
    ;
    if start + (k + 1) * step < len {
        assert(k + 1 <= x / step) by (nonlinear_arith)
            requires
                (k + 1) * step <= x,
                step > 0,
                k >= 0,
        ;
    } else {
        assert(x / step == k) by (nonlinear_arith)
            requires
                k * step <= x,
                x < (k + 1) * step,
                step > 0,
                k >= 0,
        ;
    }
}

/// A walk from `start` by a positive `step` visits, in increasing order and once
/// each, exactly the positions below `len` that are `start` plus a multiple of
/// `step`; a walk from 0 by 1 visits every position.
pub proof fn lemma_walk(start: int, step: int, len: int)
    requires
        0 <= start,
        step > 0,
        0 <= len,
    ensures
        forall|k: int|
            0 <= k < walk(start, step, len).len() ==> #[trigger] walk(start, step, len)[k] == start
                + k * step && walk(start, step, len)[k] < len,
        forall|a: int, b: int|
            0 <= a < b < walk(start, step, len).len() ==> walk(start, step, len)[a] < walk(
                start,
                step,
                len,
            )[b],
        forall|p: int|
            #![trigger walk(start, step, len).contains(p)]
            walk(start, step, len).contains(p) <==> start <= p < len && (p - start) % step == 0,
        walk(0, 1, len) == Seq::new(len as nat, |i: int| i),
{
    let w = walk(start, step, len);
    assert forall|k: int| 0 <= k < w.len() implies #[trigger] w[k] == start + k * step && w[k]
        < len by {
        let x = len - start - 1;
        assert(k * step <= x) by (nonlinear_arith)
            requires
                k <= x / step,
                step > 0,
                k >= 0,
                x >= 0,
        ;
    }
    assert forall|a: int, b: int| 0 <= a < b < w.len() implies w[a] < w[b] by {
        assert(a * step < b * step) by (nonlinear_arith)
            requires
                a < b,
                step > 0,
        ;
    }
    assert forall|p: int| #![trigger w.contains(p)] w.contains(p) <==> start <= p < len && (p
        - start) % step == 0 by {
        if w.contains(p) {
            let k = choose|k: int| 0 <= k < w.len() && w[k] == p;
            assert(w[k] == start + k * step);
            assert((k * step) % step == 0) by (nonlinear_arith)
                requires
                    step > 0,
                    k >= 0,
            ;
            assert(k * step >= 0) by (nonlinear_arith)
                requires
                    step > 0,
                    k >= 0,
            ;
        }
        if start <= p < len && (p - start) % step == 0 {
            let k = (p - start) / step;
            assert(k * step == p - start && k >= 0) by (nonlinear_arith)
                requires
                    k == (p - start) / step,
                    (p - start) % step == 0,
                    p - start >= 0,
                    step > 0,
            ;
            lemma_walk_len_step(start, step, len, k);
            assert(w[k] == p);
        }
    }
    if len > 0 {
        assert((len - 1) / 1 == len - 1);
    }
    assert(walk(0, 1, len) =~= Seq::new(len as nat, |i: int| i));
}

/// The notes of the book at `book_index` from position `start_note` on, taking
/// every `step`-th one. A step of zero would never end and is refused.
pub fn all_notes(books: &Vec<Book>, book_index: u16, start_note: u16, step: u16, settings: &Settings) -> (r:
    Result<String, LibError>)
    ensures
        book_index >= books@.len() ==> r == Err::<String, LibError>(
            LibError::BookIndexOutOfRange,
        ),
        book_index < books@.len() && step == 0 ==> r == Err::<String, LibError>(
            LibError::InvalidNumericInput,
        ),
        book_index < books@.len() && step > 0 ==> r is Ok && r->Ok_0@ == walk_text(
            *settings,
            books@[book_index as int].notes@,
            start_note as int,
            step as int,
        ),
{
    let book = match book_at(books, book_index) {
        Ok(b) => b,
        Err(e) => return Err(e),
    };
    if step == 0 {
        return Err(LibError::InvalidNumericInput);
    }
    let notes = &book.notes;
    let n: usize = notes.len();
    let ghost w = walk(start_note as int, step as int, n as int);
    let mut cur: usize = start_note as usize;
    let ghost mut k: int = 0;
    let mut out = String::new();
    while cur < n
        invariant
            n == notes@.len(),
            step > 0,
            w == walk(start_note as int, step as int, n as int),
            0 <= k <= w.len(),
            cur < n ==> cur == start_note + k * step && k < w.len(),
            cur >= n ==> k == w.len(),
            out@ == blocks(*settings, notes@, w.take(k)),
        decreases n - cur,
    {
        let note = &notes[cur];
        proof {
            reveal_strlit("\n");
            reveal_strlit("\n\n");
            reveal_strlit("Final thoughts\n");
        }
        if note.end == FINAL_THOUGHTS {
            out.append("Final thoughts\n");
        } else {
            let label = range_string(note.start, note.end, settings);
            out.append(label.as_str());
            out.append("\n");
        }
        out.append(note.note.as_str());
        out.append("\n\n");
        proof {
            lemma_walk_len_step(start_note as int, step as int, n as int, k);
            assert((k + 1) * step == k * step + step) by (nonlinear_arith);
            let ps = w.take(k + 1);
            assert(ps.drop_last() =~= w.take(k));
            assert(ps.last() == cur as int);
            assert(out@ =~= blocks(*settings, notes@, ps));
            k = k + 1;
        }
        if n - cur > step as usize {
            cur = cur + step as usize;
        } else {
            cur = n;
        }
    }
    assert(w.take(k) =~= w);
    if out.unicode_len() == 0 {
        proof {
            reveal_strlit("No notes found =(\n");
        }
        return Ok(String::from_str("No notes found =(\n"));
    }
    Ok(out)
}

} // verus!

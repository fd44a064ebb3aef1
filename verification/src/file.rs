//! Files: the bytes of a text, its rows being separated by line feeds.
use vstd::prelude::*;
use vstd::string::*;

use crate::row::{collect_bytes, have_new_ids, is_new_id, new_row, CharView, Row, RowView};
use crate::rows::{lemma_fits, lemma_total_prefix, lemma_total_push};
use crate::size::{format_size, size_text};
use crate::state::{laid_out, row_views, total_bytes, Editor, EditorView};

verus! {

/// The byte that ends a line.
pub const LINE_FEED: u8 = 0x0a;

/// The lines that bytes stand for, separated by line feeds; bytes behind the last line feed are a
/// line too, even if there are none.
pub open spec fn lines(bytes: Seq<u8>) -> Seq<Seq<u8>>
    decreases bytes.len(),
{
    if bytes.len() == 0 {
        seq![Seq::empty()]
    } else {
        let before = lines(bytes.drop_last());
        if bytes.last() == LINE_FEED {
            before.push(Seq::empty())
        } else {
            before.update(before.len() - 1, before.last().push(bytes.last()))
        }
    }
}

/// The lines with line feeds between them.
pub open spec fn joined(lines: Seq<Seq<u8>>) -> Seq<u8>
    decreases lines.len(),
{
    if lines.len() == 0 {
        Seq::empty()
    } else if lines.len() == 1 {
        lines[0]
    } else {
        joined(lines.drop_last()).push(LINE_FEED) + lines.last()
    }
}

/// The bytes of each row.
pub open spec fn row_bytes(rows: Seq<RowView>) -> Seq<Seq<u8>> {
    Seq::new(rows.len(), |i: int| rows[i].bytes())
}

/// The number of bytes of the lines.
pub open spec fn lines_len(lines: Seq<Seq<u8>>) -> nat
    decreases lines.len(),
{
    if lines.len() == 0 {
        0
    } else {
        lines_len(lines.drop_last()) + lines.last().len()
    }
}

/// The rows as they are made of lines.
pub open spec fn are_lines(rows: Seq<RowView>, lines: Seq<Seq<u8>>) -> bool {
    &&& row_bytes(rows) == lines
    &&& forall|i: int|
        0 <= i < rows.len() ==> #[trigger] rows[i] == new_row(rows[i].uuid, rows[i].chars)
}

/// The rows and all their characters have new identifiers.
pub open spec fn are_new_rows(rows: Seq<RowView>) -> bool {
    forall|i: int|
        0 <= i < rows.len() ==> is_new_id((#[trigger] rows[i]).uuid) && have_new_ids(rows[i].chars)
}

pub proof fn lemma_lines_not_empty(bytes: Seq<u8>)
    ensures
        lines(bytes).len() > 0,
    decreases bytes.len(),
{
    if bytes.len() > 0 {
        lemma_lines_not_empty(bytes.drop_last());
    }
}

proof fn lemma_joined_push(l: Seq<Seq<u8>>, line: Seq<u8>)
    requires
        l.len() > 0,
    ensures
        joined(l.push(line)) == joined(l).push(LINE_FEED) + line,
{
    assert(l.push(line).drop_last() == l);
}

proof fn lemma_joined_last(l: Seq<Seq<u8>>, line: Seq<u8>, c: u8)
    requires
        l.len() > 0,
        line == l.last(),
    ensures
        joined(l.update(l.len() - 1, line.push(c))) == joined(l).push(c),
{
    let new = l.update(l.len() - 1, line.push(c));
    if l.len() > 1 {
        assert(new.drop_last() == l.drop_last());
        assert(joined(l.drop_last()).push(LINE_FEED) + line.push(c) == (joined(l.drop_last()).push(
            LINE_FEED,
        ) + line).push(c));
    }
}

/// Writing what was read gives the same bytes: a text that is saved as it was loaded leaves its
/// file unchanged.
pub proof fn law_write_after_read(bytes: Seq<u8>)
    ensures
        joined(lines(bytes)) == bytes,
    decreases bytes.len(),
{
    if bytes.len() > 0 {
        let before = lines(bytes.drop_last());
        law_write_after_read(bytes.drop_last());
        lemma_lines_not_empty(bytes.drop_last());
        if bytes.last() == LINE_FEED {
            lemma_joined_push(before, Seq::empty());
            assert(joined(before).push(LINE_FEED) + Seq::empty() == bytes);
        } else {
            lemma_joined_last(before, before.last(), bytes.last());
            assert(joined(before).push(bytes.last()) == bytes);
        }
    } else {
        assert(bytes == Seq::<u8>::empty());
    }
}

proof fn lemma_lines_append(bytes: Seq<u8>, line: Seq<u8>)
    requires
        !line.contains(LINE_FEED),
    ensures
        lines(bytes).len() > 0,
        lines(bytes + line) == lines(bytes).update(
            lines(bytes).len() - 1,
            lines(bytes).last() + line,
        ),
    decreases line.len(),
{
    let l = lines(bytes);
    lemma_lines_not_empty(bytes);
    if line.len() == 0 {
        assert(bytes + line == bytes);
        assert(l.last() + line == l.last());
        assert(l == l.update(l.len() - 1, l.last() + line));
    } else {
        let start = line.drop_last();
        assert(!start.contains(LINE_FEED)) by {
            if start.contains(LINE_FEED) {
                let k = choose|k: int| 0 <= k < start.len() && start[k] == LINE_FEED;
                assert(line[k] == LINE_FEED);
            }
        }
        assert(line.last() != LINE_FEED) by {
            assert(line[line.len() - 1] == line.last());
        }
        lemma_lines_append(bytes, start);
        assert((bytes + line).drop_last() == bytes + start);
        assert((bytes + line).last() == line.last());
        assert((l.last() + start).push(line.last()) == l.last() + line);
        assert(lines(bytes + line) == l.update(l.len() - 1, l.last() + line));
    }
}

/// Reading what was written gives the same lines, if there is a line and no line holds a line
/// feed.
pub proof fn law_read_after_write(l: Seq<Seq<u8>>)
    requires
        l.len() > 0,
        forall|i: int| 0 <= i < l.len() ==> !(#[trigger] l[i]).contains(LINE_FEED),
    ensures
        lines(joined(l)) == l,
    decreases l.len(),
{
    if l.len() == 1 {
        lemma_lines_append(Seq::empty(), l[0]);
        assert(Seq::<u8>::empty() + l[0] == l[0]);
        assert(lines(Seq::<u8>::empty()).update(0, l[0]) == l);
    } else {
        let start = l.drop_last();
        assert forall|i: int| 0 <= i < start.len() implies !(#[trigger] start[i]).contains(
            LINE_FEED,
        ) by {
            assert(start[i] == l[i]);
        }
        law_read_after_write(start);
        let b = joined(start).push(LINE_FEED);
        assert(b.drop_last() == joined(start));
        assert(lines(b) == start.push(Seq::empty()));
        assert(!l[l.len() - 1].contains(LINE_FEED));
        lemma_lines_append(b, l.last());
        assert(Seq::<u8>::empty() + l.last() == l.last());
        assert(start.push(Seq::empty()).update(start.len() as int, l.last()) == l);
    }
}

/// The lines have the bytes without the line feeds between them.
pub proof fn lemma_lines_len(bytes: Seq<u8>)
    ensures
        lines(bytes).len() > 0,
        lines_len(lines(bytes)) + lines(bytes).len() == bytes.len() + 1,
    decreases bytes.len(),
{
    let l = lines(bytes);
    if bytes.len() > 0 {
        let before = lines(bytes.drop_last());
        lemma_lines_len(bytes.drop_last());
        assert(l.drop_last() == if bytes.last() == LINE_FEED {
            before
        } else {
            before.drop_last()
        });
    } else {
        assert(l.drop_last() == Seq::<Seq<u8>>::empty());
        assert(lines_len(l.drop_last()) == 0);
    }
}

/// The number of bytes that are written is that of the rows and of the line feeds between them.
pub proof fn law_written_size(rows: Seq<RowView>)
    ensures
        joined(row_bytes(rows)).len() == total_bytes(rows) + if rows.len() > 0 {
            rows.len() - 1
        } else {
            0
        },
    decreases rows.len(),
{
    if rows.len() > 0 {
        law_written_size(rows.drop_last());
        assert(row_bytes(rows).drop_last() == row_bytes(rows.drop_last()));
        assert(total_bytes(rows.drop_last()) + rows.last().chars.len() == total_bytes(rows));
        if rows.len() == 1 {
            assert(total_bytes(rows.drop_last()) == 0);
        }
    }
}

/// What was found under the name of a file.
pub enum FileRead {
    /// There is no such file.
    NotFound,
    /// It is no file.
    InvalidType,
    /// It holds these bytes.
    Contents(Vec<u8>),
    /// It could not be read, for this reason.
    Failed(String),
}

/// Why a file cannot be shown.
pub enum LoadError {
    InvalidType,
    Failed(String),
}

impl LoadError {
    pub open spec fn text(self) -> Seq<char> {
        match self {
            LoadError::InvalidType => "Invalid input file type"@,
            LoadError::Failed(reason) => reason@,
        }
    }

    /// The message for the error.
    pub fn message(&self) -> (r: String)
        ensures
            r@ == self.text(),
    {
        match self {
            LoadError::InvalidType => "Invalid input file type".to_string(),
            LoadError::Failed(reason) => reason.clone(),
        }
    }
}

impl EditorView {
    /// There is room for the lines of a file.
    pub open spec fn load_ok(self, bytes: Seq<u8>) -> bool {
        self.room(lines_len(lines(bytes)), lines(bytes).len())
    }

    /// The number of bytes that are written can be shown.
    pub open spec fn save_ok(self) -> bool {
        100 * joined(row_bytes(self.rows)).len() <= u64::MAX
    }
}

pub open spec fn line_views(v: Seq<Vec<u8>>) -> Seq<Seq<u8>> {
    Seq::new(v.len(), |i: int| v[i]@)
}

/// The lines of a file.
pub fn split_lines(bytes: &Vec<u8>) -> (r: Vec<Vec<u8>>)
    ensures
        line_views(r@) == lines(bytes@),
{
    let mut r: Vec<Vec<u8>> = Vec::new();
    let mut line: Vec<u8> = Vec::new();
    let mut i: usize = 0;
    assert(line@ =~= Seq::<u8>::empty());
    assert(line_views(r@).push(line@) =~= lines(bytes@.take(0)));
    while i < bytes.len()
        invariant
            i <= bytes@.len(),
            line_views(r@).push(line@) == lines(bytes@.take(i as int)),
        decreases bytes@.len() - i,
    {
        let c = bytes[i];
        let ghost before = line_views(r@);
        let ghost start = line@;
        proof {
            let more = bytes@.take(i + 1);
            assert(more.drop_last() =~= bytes@.take(i as int));
            assert(more.last() == c);
        }
        if c == LINE_FEED {
            r.push(line);
            line = Vec::new();
            assert(line@ =~= Seq::<u8>::empty());
            assert(line_views(r@) =~= before.push(start));
        } else {
            line.push(c);
        }
        i = i + 1;
        assert(line_views(r@).push(line@) =~= lines(bytes@.take(i as int)));
    }
    assert(bytes@.take(i as int) =~= bytes@);
    let ghost before = line_views(r@);
    let ghost last = line@;
    r.push(line);
    assert(line_views(r@) =~= before.push(last));
    r
}

impl Editor {
    /// The bytes of the text.
    pub fn contents(&self) -> (r: Vec<u8>)
        ensures
            r@ == joined(row_bytes(self@.rows)),
    {
        let n = self.rows.len();
        let ghost all = row_bytes(self@.rows);
        let mut r: Vec<u8> = Vec::new();
        let mut i: usize = 0;
        assert(all.take(0) =~= Seq::<Seq<u8>>::empty());
        while i < n
            invariant
                n == self.rows@.len(),
                i <= n,
                all == row_bytes(self@.rows),
                r@ == joined(all.take(i as int)),
            decreases n - i,
        {
            if i != 0 {
                r.push(LINE_FEED);
            }
            let mut bytes = collect_bytes(&self.rows[i].chars);
            proof {
                assert(all.take(i + 1).drop_last() =~= all.take(i as int));
                assert(all.take(i + 1).last() == bytes@);
            }
            r.append(&mut bytes);
            i = i + 1;
            assert(r@ =~= joined(all.take(i as int)));
        }
        assert(all.take(i as int) =~= all);
        r
    }

    /// Whether `save_to_file` can be called.
    pub fn can_save_to_file(&self) -> (r: bool)
        requires
            self.wf(),
        ensures
            r == self@.save_ok(),
    {
        proof {
            law_written_size(self@.rows);
        }
        let breaks = self.rows.len().saturating_sub(1) as u128;
        100 * (self.n_bytes as u128 + breaks) <= u64::MAX as u128
    }

    /// The bytes that are to be written to a file, and how many there are.
    pub fn save_to_file(&self) -> (r: (Vec<u8>, String))
        requires
            self@.save_ok(),
        ensures
            r.0@ == joined(row_bytes(self@.rows)),
            r.1@ == size_text(joined(row_bytes(self@.rows)).len()),
    {
        let contents = self.contents();
        let size = format_size(contents.len() as u64);
        (contents, size)
    }

    /// Append an empty row.
    pub fn push_empty_row(&mut self)
        requires
            old(self).wf(),
            old(self)@.room(0, 1),
        ensures
            final(self).wf(),
            exists|id: Seq<char>|
                is_new_id(id) && final(self)@ == old(self)@.with_rows(
                    old(self)@.rows.push(#[trigger] new_row(id, Seq::empty())),
                ),
    {
        let ghost s0 = self@;
        proof {
            lemma_fits(0, total_bytes(s0.rows), s0.tab());
        }
        let chars = Vec::new();
        let row = Row::new(chars, None, self.config.tab_stop);
        let ghost view = row@;
        self.rows.push(row);
        proof {
            assert(view.chars =~= Seq::<CharView>::empty());
            assert(view == new_row(view.uuid, Seq::empty()));
            assert(row_views(self.rows@) =~= s0.rows.push(view));
            lemma_total_push(s0.rows, view);
        }
    }

    /// Whether `load_bytes` can be called.
    pub fn can_load_bytes(&self, bytes: &Vec<u8>) -> (r: bool)
        requires
            self.wf(),
        ensures
            r == self@.load_ok(bytes@),
    {
        let n = split_lines(bytes).len();
        let len = bytes.len();
        proof {
            lemma_lines_len(bytes@);
            assert(n == lines(bytes@).len());
        }
        // A line less than there are bytes and one
        self.has_room(len - (n - 1), n)
    }

    /// Append the lines of a file to the text.
    pub fn load_bytes(&mut self, bytes: &Vec<u8>)
        requires
            old(self).wf(),
            old(self)@.load_ok(bytes@),
        ensures
            final(self).wf(),
            exists|rows: Seq<RowView>|
                #![trigger are_lines(rows, lines(bytes@))]
                are_lines(rows, lines(bytes@)) && are_new_rows(rows) && final(self)@ == old(
                    self,
                )@.rows_loaded(old(self)@.rows + rows),
    {
        let ghost s0 = self@;
        let ghost tab = s0.tab();
        let ghost l = lines(bytes@);
        let split = split_lines(bytes);
        let ghost mut new: Seq<RowView> = Seq::empty();
        assert(split@.len() == l.len());
        assert(l.take(0) =~= Seq::<Seq<u8>>::empty());
        assert(s0.rows + new =~= s0.rows);
        assert(row_bytes(new) =~= l.take(0));
        for line in it: split
            invariant
                s0.room(lines_len(l), l.len()),
                tab == s0.tab(),
                l == line_views(it.seq()),
                new.len() == it.index(),
                row_bytes(new) == l.take(it.index() as int),
                forall|i: int|
                    0 <= i < new.len() ==> #[trigger] new[i] == new_row(new[i].uuid, new[i].chars),
                are_new_rows(new),
                self@ == s0.with_rows(s0.rows + new),
                laid_out(self.rows@, tab),
                total_bytes(self@.rows) == total_bytes(s0.rows) + lines_len(
                    l.take(it.index() as int),
                ),
        {
            let ghost n = new.len() as int;
            proof {
                lemma_lines_prefix(l, n + 1);
                assert(l.take(n + 1).drop_last() =~= l.take(n));
                assert(l.take(n + 1).last() == line@);
                lemma_fits(line@.len(), total_bytes(s0.rows) + lines_len(l), tab);
            }
            let row = Row::new_from_new_chars(line, None, self.config.tab_stop);
            let ghost view = row@;
            let ghost rows0 = self@.rows;
            self.rows.push(row);
            proof {
                assert(view.chars.len() == view.bytes().len());
                assert(row_views(self.rows@) =~= rows0.push(view));
                lemma_total_push(rows0, view);
                assert((s0.rows + new).push(view) =~= s0.rows + new.push(view));
                assert(row_bytes(new.push(view)) =~= l.take(n).push(line@));
                assert(l.take(n).push(line@) =~= l.take(n + 1));
                new = new.push(view);
            }
        }
        assert(l.take(l.len() as int) =~= l);
        assert(are_lines(new, l));
        proof {
            assert(self.rows@.len() == self@.rows.len());
            lemma_fits(0, total_bytes(s0.rows) + lines_len(l), tab);
        }
        self.n_bytes = self.count_all();
        self.update_all_rows();
        // The number of rows has changed. The left padding may need to be updated.
        self.update_screen_cols();
        assert(self@ == s0.rows_loaded(s0.rows + new));
    }

    /// The number of bytes of the rows.
    fn count_all(&self) -> (r: u64)
        requires
            total_bytes(self@.rows) + 32 <= usize::MAX,
        ensures
            r == total_bytes(self@.rows),
    {
        let ghost all = self@.rows;
        let n = self.rows.len();
        let mut total: u64 = 0;
        let mut i: usize = 0;
        while i < n
            invariant
                n == self.rows@.len(),
                i <= n,
                all == self@.rows,
                total == total_bytes(all.take(i as int)),
                total_bytes(all) + 32 <= usize::MAX,
            decreases n - i,
        {
            proof {
                assert(all.take(i + 1).drop_last() =~= all.take(i as int));
                lemma_total_prefix(all, i + 1);
            }
            total = total + self.rows[i].chars.len() as u64;
            i = i + 1;
        }
        assert(all.take(i as int) =~= all);
        total
    }

    /// Load what was found under the name of a file. If there is no such file, the text is one
    /// empty row.
    pub fn load_file(&mut self, read: FileRead) -> (r: Result<(), LoadError>)
        requires
            old(self).wf(),
            read matches FileRead::Contents(bytes) ==> old(self)@.load_ok(bytes@),
            read is NotFound ==> old(self)@.room(0, 1),
        ensures
            final(self).wf(),
            match read {
                FileRead::NotFound => r is Ok && exists|id: Seq<char>|
                    is_new_id(id) && final(self)@ == old(self)@.with_rows(
                        old(self)@.rows.push(#[trigger] new_row(id, Seq::empty())),
                    ),
                FileRead::Contents(bytes) => r is Ok && exists|rows: Seq<RowView>|
                    #![trigger are_lines(rows, lines(bytes@))]
                    are_lines(rows, lines(bytes@)) && are_new_rows(rows) && final(self)@ == old(
                        self,
                    )@.rows_loaded(old(self)@.rows + rows),
                FileRead::InvalidType => r == Err::<(), LoadError>(LoadError::InvalidType)
                    && final(self)@ == old(self)@,
                FileRead::Failed(reason) => r == Err::<(), LoadError>(LoadError::Failed(reason))
                    && final(self)@ == old(self)@,
            },
    {
        match read {
            FileRead::NotFound => {
                self.push_empty_row();
                Ok(())
            },
            FileRead::Contents(bytes) => {
                self.load_bytes(&bytes);
                Ok(())
            },
            FileRead::InvalidType => Err(LoadError::InvalidType),
            FileRead::Failed(reason) => Err(LoadError::Failed(reason)),
        }
    }
}

proof fn lemma_lines_prefix(l: Seq<Seq<u8>>, n: int)
    requires
        0 <= n <= l.len(),
    ensures
        lines_len(l.take(n)) <= lines_len(l),
    decreases l.len() - n,
{
    if n < l.len() {
        assert(l.take(n + 1).drop_last() == l.take(n));
        lemma_lines_prefix(l, n + 1);
    } else {
        assert(l.take(n) == l);
    }
}

} // verus!

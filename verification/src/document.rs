//! The document buffer: an ordered list of text lines, loaded from the
//! characters of a file and written back as characters on save.
//!
//! A line never contains a line feed. A well-formed document holds at least
//! one line, so the cursor always has a line to sit on: loading empty text
//! yields a single empty line.

use vstd::prelude::*;

verus! {

/// Strips one trailing carriage return, as a CRLF line terminator leaves one
/// on the segment before the line feed.
pub open spec fn strip_cr(s: Seq<char>) -> Seq<char> {
    if s.len() > 0 && s.last() == '\r' {
        s.drop_last()
    } else {
        s
    }
}

/// The line segments of `s`: split at each line feed, one trailing carriage
/// return stripped from each terminated segment, and the final segment kept
/// only when it is non-empty (a trailing terminator does not open a new line).
/// `cur` accumulates the characters of the segment being read.
pub open spec fn lines_from(s: Seq<char>, cur: Seq<char>) -> Seq<Seq<char>>
    decreases s.len(),
{
    if s.len() == 0 {
        if cur.len() == 0 {
            Seq::empty()
        } else {
            seq![cur]
        }
    } else if s[0] == '\n' {
        seq![strip_cr(cur)] + lines_from(s.drop_first(), Seq::empty())
    } else {
        lines_from(s.drop_first(), cur.push(s[0]))
    }
}

/// The lines a document holds after loading text `s`: its segments, or a
/// single empty line when `s` has none.
pub open spec fn lines_of(s: Seq<char>) -> Seq<Seq<char>> {
    let raw = lines_from(s, Seq::empty());
    if raw.len() == 0 {
        seq![Seq::<char>::empty()]
    } else {
        raw
    }
}

/// The text a document of lines `ls` is saved as: every line followed by one
/// line feed.
pub open spec fn join_lines(ls: Seq<Seq<char>>) -> Seq<char>
    decreases ls.len(),
{
    if ls.len() == 0 {
        Seq::empty()
    } else {
        ls[0] + seq!['\n'] + join_lines(ls.drop_first())
    }
}

/// Appending one line to a joined sequence appends its characters and one
/// line feed.
pub proof fn lemma_join_push(ls: Seq<Seq<char>>, l: Seq<char>)
    ensures
        join_lines(ls.push(l)) == join_lines(ls) + l + seq!['\n'],
    decreases ls.len(),
{
    if ls.len() == 0 {
        assert(ls.push(l)[0] == l);
        assert(ls.push(l).drop_first() =~= Seq::<Seq<char>>::empty());
        assert(join_lines(ls.push(l).drop_first()) == Seq::<char>::empty());
        assert(join_lines(ls.push(l)) == l + seq!['\n'] + Seq::<char>::empty());
        assert(join_lines(ls) == Seq::<char>::empty());
        assert(join_lines(ls.push(l)) =~= join_lines(ls) + l + seq!['\n']);
    } else {
        assert(ls.push(l).drop_first() =~= ls.drop_first().push(l));
        assert(ls.push(l)[0] == ls[0]);
        lemma_join_push(ls.drop_first(), l);
        assert(join_lines(ls.push(l)) == ls[0] + seq!['\n'] + (join_lines(ls.drop_first()) + l
            + seq!['\n']));
        assert(join_lines(ls) == ls[0] + seq!['\n'] + join_lines(ls.drop_first()));
        assert(join_lines(ls.push(l)) =~= join_lines(ls) + l + seq!['\n']);
    }
}

/// Reading a terminated line off the front of a text: the accumulated prefix
/// plus the line becomes one segment, and splitting goes on after the line
/// feed with an empty accumulator.
proof fn lemma_lines_from_line(line: Seq<char>, rest: Seq<char>, cur: Seq<char>)
    requires
        !line.contains('\n'),
    ensures
        lines_from(line + seq!['\n'] + rest, cur) == seq![strip_cr(cur + line)] + lines_from(
            rest,
            Seq::empty(),
        ),
    decreases line.len(),
{
    let s = line + seq!['\n'] + rest;
    if line.len() == 0 {
        assert(s =~= seq!['\n'] + rest);
        assert(s[0] == '\n');
        assert(s.drop_first() =~= rest);
        assert(cur + line =~= cur);
    } else {
        assert(s[0] == line[0]);
        assert(line[0] != '\n');
        assert(s.drop_first() =~= line.drop_first() + seq!['\n'] + rest);
        assert(!line.drop_first().contains('\n')) by {
            if line.drop_first().contains('\n') {
                let i = choose|i: int|
                    0 <= i < line.drop_first().len() && line.drop_first()[i] == '\n';
                assert(line[i + 1] == '\n');
            }
        }
        lemma_lines_from_line(line.drop_first(), rest, cur.push(line[0]));
        assert(cur.push(line[0]) + line.drop_first() =~= cur + line);
    }
}

/// Splitting a joined sequence of terminator-free lines yields those lines
/// back, so long as no line ends with a carriage return.
proof fn lemma_split_join(ls: Seq<Seq<char>>)
    requires
        forall|i: int| 0 <= i < ls.len() ==> !(#[trigger] ls[i]).contains('\n'),
        forall|i: int| 0 <= i < ls.len() ==> ((#[trigger] ls[i]).len() > 0 ==> ls[i].last() != '\r'),
    ensures
        lines_from(join_lines(ls), Seq::empty()) == ls,
    decreases ls.len(),
{
    if ls.len() == 0 {
        assert(lines_from(join_lines(ls), Seq::empty()) =~= ls);
    } else {
        lemma_lines_from_line(ls[0], join_lines(ls.drop_first()), Seq::empty());
        assert(Seq::<char>::empty() + ls[0] =~= ls[0]);
        assert(strip_cr(ls[0]) == ls[0]);
        lemma_split_join(ls.drop_first());
        assert(lines_from(join_lines(ls), Seq::empty()) =~= ls);
    }
}

/// Law: saving a buffer and reloading the saved text yields the same lines.
/// This holds of every buffer whose lines hold no line feed and do not end
/// with a carriage return (a line's own trailing carriage return would read
/// back as part of a CRLF terminator).
pub proof fn lemma_save_reload(ls: Seq<Seq<char>>)
    requires
        ls.len() >= 1,
        forall|i: int| 0 <= i < ls.len() ==> !(#[trigger] ls[i]).contains('\n'),
        forall|i: int| 0 <= i < ls.len() ==> ((#[trigger] ls[i]).len() > 0 ==> ls[i].last() != '\r'),
    ensures
        lines_of(join_lines(ls)) == ls,
{
    lemma_split_join(ls);
}

/// A character vector's deep view is its plain view.
pub proof fn lemma_vec_char_deep_view(v: Vec<char>)
    ensures
        v.deep_view() == v@,
{
    assert(v.deep_view() =~= v@);
}

/// Pushing a line onto a line vector pushes its view onto the deep view.
pub proof fn lemma_deep_view_push(pre: Vec<Vec<char>>, post: Vec<Vec<char>>, x: Vec<char>)
    requires
        post@ == pre@.push(x),
    ensures
        post.deep_view() == pre.deep_view().push(x@),
{
    lemma_vec_char_deep_view(x);
    assert(post.deep_view() =~= pre.deep_view().push(x@));
}

/// Updating one line of a line vector updates its view in the deep view.
pub proof fn lemma_deep_view_update(pre: Vec<Vec<char>>, post: Vec<Vec<char>>, i: int, x: Vec<char>)
    requires
        0 <= i < pre@.len(),
        post@ == pre@.update(i, x),
    ensures
        post.deep_view() == pre.deep_view().update(i, x@),
{
    lemma_vec_char_deep_view(x);
    assert(post.deep_view() =~= pre.deep_view().update(i, x@));
}

/// Inserting a line into a line vector inserts its view into the deep view.
pub proof fn lemma_deep_view_insert(pre: Vec<Vec<char>>, post: Vec<Vec<char>>, i: int, x: Vec<char>)
    requires
        0 <= i <= pre@.len(),
        post@ == pre@.insert(i, x),
    ensures
        post.deep_view() == pre.deep_view().insert(i, x@),
{
    lemma_vec_char_deep_view(x);
    assert(post.deep_view() =~= pre.deep_view().insert(i, x@));
}

/// Removing a line from a line vector removes its view from the deep view.
pub proof fn lemma_deep_view_remove(pre: Vec<Vec<char>>, post: Vec<Vec<char>>, i: int)
    requires
        0 <= i < pre@.len(),
        post@ == pre@.remove(i),
    ensures
        post.deep_view() == pre.deep_view().remove(i),
{
    assert(post.deep_view() =~= pre.deep_view().remove(i));
}

/// An in-memory document: an ordered list of lines, one `Vec<char>` per line.
pub struct Document {
    lines: Vec<Vec<char>>,
}

impl View for Document {
    type V = Seq<Seq<char>>;

    closed spec fn view(&self) -> Seq<Seq<char>> {
        self.lines.deep_view()
    }
}

impl Document {
    /// A well-formed document has at least one line and no line feed inside
    /// any line.
    pub open spec fn wf(self) -> bool {
        &&& self@.len() >= 1
        &&& forall|i: int| 0 <= i < self@.len() ==> !self@[i].contains('\n')
    }

    /// Builds a document from the characters of a file, splitting them into
    /// lines. Empty text yields a single empty line.
    pub fn from_chars(text: &Vec<char>) -> (d: Document)
        ensures
            d@ == lines_of(text@),
            d.wf(),
    {
        proof {
            lemma_vec_char_deep_view(*text);
        }
        let ghost t = text@;
        let mut lines: Vec<Vec<char>> = Vec::new();
        let mut cur: Vec<char> = Vec::new();
        let mut i: usize = 0;
        proof {
            assert(t =~= t.skip(0));
        }
        while i < text.len()
            invariant
                i <= text.len(),
                t == text@,
                t.len() == text.len(),
                lines_from(t, Seq::empty()) == lines.deep_view() + lines_from(
                    t.skip(i as int),
                    cur@,
                ),
                !cur@.contains('\n'),
                forall|k: int| 0 <= k < lines.deep_view().len() ==> !lines.deep_view()[k].contains(
                    '\n',
                ),
            decreases text.len() - i,
        {
            let c = text[i];
            proof {
                assert(t.skip(i as int)[0] == t[i as int]);
                assert(t.skip(i as int).drop_first() =~= t.skip(i as int + 1));
            }
            if c == '\n' {
                let ghost cur0 = cur@;
                if cur.len() > 0 && cur[cur.len() - 1] == '\r' {
                    let _ = cur.pop();
                }
                proof {
                    assert(cur@ =~= strip_cr(cur0));
                }
                let ghost pre = lines;
                let ghost x = cur;
                lines.push(cur);
                cur = Vec::new();
                proof {
                    lemma_deep_view_push(pre, lines, x);
                }
            } else {
                cur.push(c);
            }
            i += 1;
        }
        proof {
            assert(t.skip(i as int) =~= Seq::<char>::empty());
        }
        if cur.len() > 0 {
            let ghost pre = lines;
            let ghost x = cur;
            lines.push(cur);
            proof {
                lemma_deep_view_push(pre, lines, x);
            }
        }
        if lines.len() == 0 {
            let ghost pre = lines;
            let empty_line: Vec<char> = Vec::new();
            let ghost x = empty_line;
            lines.push(empty_line);
            proof {
                lemma_deep_view_push(pre, lines, x);
            }
        }
        let d = Document { lines };
        proof {
            assert(d@ =~= lines_of(t));
        }
        d
    }

    /// The characters the buffer is saved as: every line followed by one line
    /// feed.
    pub fn to_chars(&self) -> (r: Vec<char>)
        ensures
            r@ == join_lines(self@),
    {
        let mut out: Vec<char> = Vec::new();
        let mut y: usize = 0;
        proof {
            assert(self@.take(0) =~= Seq::<Seq<char>>::empty());
        }
        while y < self.lines.len()
            invariant
                y <= self.lines.len(),
                self@ == self.lines.deep_view(),
                out@ == join_lines(self@.take(y as int)),
            decreases self.lines.len() - y,
        {
            let line = &self.lines[y];
            proof {
                lemma_vec_char_deep_view(*line);
            }
            let mut x: usize = 0;
            proof {
                assert(out@ =~= out@ + line@.take(0));
            }
            let ghost base = out@;
            while x < line.len()
                invariant
                    x <= line.len(),
                    out@ == base + line@.take(x as int),
                decreases line.len() - x,
            {
                out.push(line[x]);
                proof {
                    assert(line@.take(x as int + 1) =~= line@.take(x as int).push(line@[x as int]));
                    assert(out@ =~= base + line@.take(x as int + 1));
                }
                x += 1;
            }
            proof {
                assert(line@.take(line@.len() as int) =~= line@);
            }
            out.push('\n');
            proof {
                assert(self@.take(y as int + 1) =~= self@.take(y as int).push(self@[y as int]));
                lemma_join_push(self@.take(y as int), self@[y as int]);
                assert(out@ =~= join_lines(self@.take(y as int + 1)));
            }
            y += 1;
        }
        proof {
            assert(self@.take(self@.len() as int) =~= self@);
        }
        out
    }

    /// The number of lines in the buffer.
    pub fn line_count(&self) -> (n: usize)
        ensures
            n == self@.len(),
    {
        self.lines.len()
    }

    /// The line at index `i`, or `None` past the end of the buffer.
    pub fn line(&self, i: usize) -> (r: Option<&Vec<char>>)
        ensures
            match r {
                Some(l) => i < self@.len() && l@ == self@[i as int],
                None => i >= self@.len(),
            },
    {
        if i < self.lines.len() {
            let l = &self.lines[i];
            proof {
                lemma_vec_char_deep_view(*l);
            }
            Some(l)
        } else {
            None
        }
    }

    /// The length of the line at index `y`.
    pub fn line_len(&self, y: usize) -> (n: usize)
        requires
            y < self@.len(),
        ensures
            n == self@[y as int].len(),
    {
        self.lines[y].len()
    }

    /// Read access to every line of the buffer.
    pub fn lines(&self) -> (r: &Vec<Vec<char>>)
        ensures
            r.deep_view() == self@,
    {
        &self.lines
    }

    /// Inserts character `c` at offset `x` of line `y`.
    pub fn insert_char(&mut self, y: usize, x: usize, c: char)
        requires
            y < old(self)@.len(),
            x <= old(self)@[y as int].len(),
        ensures
            final(self)@ == old(self)@.update(
                y as int,
                old(self)@[y as int].insert(x as int, c),
            ),
    {
        let ghost pre = self.lines;
        let line = &mut self.lines[y];
        line.insert(x, c);
        let ghost nl = *line;
        proof {
            lemma_vec_char_deep_view(pre@[y as int]);
            lemma_deep_view_update(pre, self.lines, y as int, nl);
        }
    }

    /// Removes the character immediately left of offset `x` on line `y`, if
    /// any; reports whether a character was removed.
    pub fn delete_char_before(&mut self, y: usize, x: usize) -> (deleted: bool)
        requires
            y < old(self)@.len(),
            x <= old(self)@[y as int].len(),
        ensures
            deleted == (x > 0),
            x > 0 ==> final(self)@ == old(self)@.update(
                y as int,
                old(self)@[y as int].remove(x as int - 1),
            ),
            x == 0 ==> final(self)@ == old(self)@,
    {
        if x > 0 {
            let ghost pre = self.lines;
            let line = &mut self.lines[y];
            let _ = line.remove(x - 1);
            let ghost nl = *line;
            proof {
                lemma_vec_char_deep_view(pre@[y as int]);
                lemma_deep_view_update(pre, self.lines, y as int, nl);
            }
            true
        } else {
            false
        }
    }

    /// Removes line `y` and appends its content to line `y - 1`; returns the
    /// offset of the merge point (the length the previous line had), or `None`
    /// when `y` is the first line.
    pub fn merge_with_previous(&mut self, y: usize) -> (r: Option<usize>)
        requires
            y < old(self)@.len(),
        ensures
            y == 0 ==> r == None::<usize> && final(self)@ == old(self)@,
            y > 0 ==> old(self)@[y as int - 1].len() <= usize::MAX,
            y > 0 ==> r == Some(old(self)@[y as int - 1].len() as usize) && final(self)@ == old(
                self,
            )@.remove(y as int).update(
                y as int - 1,
                old(self)@[y as int - 1] + old(self)@[y as int],
            ),
    {
        if y == 0 {
            return None;
        }
        let ghost pre = self.lines;
        let mut removed: Vec<char> = self.lines.remove(y);
        let ghost mid = self.lines;
        let prev = &mut self.lines[y - 1];
        let off = prev.len();
        prev.append(&mut removed);
        let ghost nl = *prev;
        proof {
            lemma_deep_view_remove(pre, mid, y as int);
            lemma_vec_char_deep_view(pre@[y as int - 1]);
            lemma_vec_char_deep_view(pre@[y as int]);
            lemma_deep_view_update(mid, self.lines, y as int - 1, nl);
        }
        Some(off)
    }

    /// Truncates line `y` at offset `x` and inserts the cut-off remainder as a
    /// new line at `y + 1`.
    pub fn split_line(&mut self, y: usize, x: usize)
        requires
            y < old(self)@.len(),
            x <= old(self)@[y as int].len(),
        ensures
            final(self)@ == old(self)@.update(y as int, old(self)@[y as int].take(x as int)).insert(
                y as int + 1,
                old(self)@[y as int].skip(x as int),
            ),
    {
        let ghost pre = self.lines;
        let line = &mut self.lines[y];
        let rest: Vec<char> = line.split_off(x);
        let ghost nl = *line;
        let ghost mid_expected = pre.deep_view().update(y as int, nl@);
        proof {
            lemma_vec_char_deep_view(pre@[y as int]);
            lemma_deep_view_update(pre, self.lines, y as int, nl);
            assert(nl@ =~= pre@[y as int]@.take(x as int));
            assert(rest@ =~= pre@[y as int]@.skip(x as int));
        }
        let ghost mid = self.lines;
        let ghost rest_snap = rest;
        let n = self.lines.len();
        assert(y < n);
        self.lines.insert(y + 1, rest);
        proof {
            lemma_deep_view_insert(mid, self.lines, y as int + 1, rest_snap);
        }
    }
}

} // verus!

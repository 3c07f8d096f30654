//! A text document held as a sequence of line fragments, edited by
//! (line, column) positions.
use vstd::prelude::*;
use vstd::seq_lib::lemma_flatten_concat;
use crate::lines::{
    chars_of, copy_range, lemma_split_from_count, lemma_split_from_nonempty,
    lemma_split_lines_flatten, split, split_lines, string_of, views,
};

verus! {

/// A position in a buffer: (line, column), both counted from zero.
pub type Pos = (usize, usize);

/// `p` addresses a fragment of `ls` and a column within it (at most its length).
pub open spec fn valid_pos(ls: Seq<Seq<char>>, p: Pos) -> bool {
    p.0 < ls.len() && p.1 <= ls[p.0 as int].len()
}

/// `a` comes no later than `b` in document order.
pub open spec fn pos_le(a: Pos, b: Pos) -> bool {
    a.0 < b.0 || (a.0 == b.0 && a.1 <= b.1)
}

/// The fragments left once the text from `start` up to `end` is removed:
/// the head of the start fragment is joined to the tail of the end fragment,
/// and the fragments between them go.
pub open spec fn deleted(ls: Seq<Seq<char>>, start: Pos, end: Pos) -> Seq<Seq<char>> {
    ls.take(start.0 as int).push(
        ls[start.0 as int].take(start.1 as int) + ls[end.0 as int].skip(end.1 as int),
    ) + ls.skip(end.0 + 1)
}

/// The fragments after `frags` are inserted at `at`: a single fragment is
/// spliced into its line; several split that line, the first joining its head
/// and the last its tail.
pub open spec fn inserted(ls: Seq<Seq<char>>, at: Pos, frags: Seq<Seq<char>>) -> Seq<Seq<char>> {
    let l = at.0 as int;
    let c = at.1 as int;
    if frags.len() == 0 {
        ls
    } else if frags.len() == 1 {
        ls.update(l, ls[l].take(c) + frags[0] + ls[l].skip(c))
    } else {
        ls.take(l).push(ls[l].take(c) + frags[0]) + frags.subrange(1, frags.len() - 1).push(
            frags.last() + ls[l].skip(c),
        ) + ls.skip(l + 1)
    }
}

/// The fragments after the text from `start` up to `end` is replaced by `t`.
pub open spec fn updated(ls: Seq<Seq<char>>, start: Pos, end: Pos, t: Seq<char>) -> Seq<Seq<char>> {
    inserted(deleted(ls, start, end), start, split_lines(t))
}

/// Where text whose fragments are `frags` ends once inserted at `at`.
pub open spec fn insert_end(at: Pos, frags: Seq<Seq<char>>) -> Pos {
    if frags.len() == 0 {
        at
    } else if frags.len() == 1 {
        (at.0, (at.1 + frags[0].len()) as usize)
    } else {
        ((at.0 + frags.len() - 1) as usize, frags.last().len() as usize)
    }
}


/// Removing an empty range leaves the fragments as they are.
pub proof fn lemma_delete_empty_range(ls: Seq<Seq<char>>, p: Pos)
    requires
        valid_pos(ls, p),
    ensures
        deleted(ls, p, p) == ls,
{
    let l = p.0 as int;
    assert(ls[l].take(p.1 as int) + ls[l].skip(p.1 as int) =~= ls[l]);
    assert(deleted(ls, p, p) =~= ls);
}

/// Inserting empty text at any position leaves the fragments as they are.
pub proof fn lemma_insert_empty(ls: Seq<Seq<char>>, p: Pos)
    requires
        valid_pos(ls, p),
    ensures
        inserted(ls, p, split_lines(Seq::empty())) == ls,
{
    let e = Seq::<char>::empty();
    assert(e.subrange(0, 0) =~= e);
    assert(split_lines(e) == seq![e.subrange(0, 0)]);
    assert(split_lines(e) =~= seq![e]);
    let l = p.0 as int;
    assert(ls[l].take(p.1 as int) + e + ls[l].skip(p.1 as int) =~= ls[l]);
    assert(inserted(ls, p, split_lines(e)) =~= ls);
}

/// Replacing the empty range at any position by empty text changes nothing.
pub proof fn lemma_update_empty(ls: Seq<Seq<char>>, p: Pos)
    requires
        valid_pos(ls, p),
    ensures
        updated(ls, p, p, Seq::empty()) == ls,
{
    lemma_delete_empty_range(ls, p);
    lemma_insert_empty(ls, p);
}

/// Replacing a range by empty text and then inserting `t` at its start is
/// the same as replacing the range by `t` at once.
pub proof fn lemma_update_composes(ls: Seq<Seq<char>>, start: Pos, end: Pos, t: Seq<char>)
    requires
        ls.len() >= 1,
        valid_pos(ls, start),
        valid_pos(ls, end),
        pos_le(start, end),
    ensures
        updated(updated(ls, start, end, Seq::empty()), start, start, t) == updated(
            ls,
            start,
            end,
            t,
        ),
{
    let d = deleted(ls, start, end);
    lemma_insert_empty(d, start);
    assert(updated(ls, start, end, Seq::empty()) == d);
    assert(d[start.0 as int] == ls[start.0 as int].take(start.1 as int) + ls[end.0 as int].skip(
        end.1 as int,
    ));
    lemma_delete_empty_range(d, start);
}

/// Inserting `t` at `at` and then removing the text from `at` to where the
/// insertion ends gives back the fragments as they were.
pub proof fn lemma_insert_then_delete(ls: Seq<Seq<char>>, at: Pos, t: Seq<char>)
    requires
        valid_pos(ls, at),
        at.0 + t.len() <= usize::MAX,
        at.1 + t.len() <= usize::MAX,
    ensures
        valid_pos(inserted(ls, at, split_lines(t)), insert_end(at, split_lines(t))),
        pos_le(at, insert_end(at, split_lines(t))),
        deleted(inserted(ls, at, split_lines(t)), at, insert_end(at, split_lines(t))) == ls,
{
    let frags = split_lines(t);
    let l = at.0 as int;
    let c = at.1 as int;
    let pre = ls[l].take(c);
    let post = ls[l].skip(c);
    assert(pre + post =~= ls[l]);
    lemma_split_from_count(t, 0, 0);
    lemma_split_lines_flatten(t);
    if frags.len() == 0 {
        lemma_delete_empty_range(ls, at);
    } else if frags.len() == 1 {
        frags.lemma_flatten_one_element();
        let e = insert_end(at, frags);
        let ins = inserted(ls, at, frags);
        assert(ins[l] == pre + t + post);
        assert(ins[l].take(c) =~= pre);
        assert(ins[l].skip(e.1 as int) =~= post);
        assert(deleted(ins, at, e) =~= ls);
    } else {
        let k = frags.len();
        let e = insert_end(at, frags);
        let ins = inserted(ls, at, frags);
        assert(ins[l] == pre + frags[0]);
        assert(ins[l + k - 1] == frags.last() + post);
        assert(e.0 as int == l + k - 1);
        frags.lemma_flatten_length_ge_single_element_length(k - 1);
        frags.lemma_flatten_and_flatten_alt_are_equivalent();
        assert(e.1 as int == frags.last().len());
        assert(ins[l].take(c) =~= pre);
        assert(ins[e.0 as int].skip(e.1 as int) =~= post);
        assert(ins.skip(e.0 + 1) =~= ls.skip(l + 1));
        assert(ins.take(l) =~= ls.take(l));
        assert(deleted(ins, at, e) =~= ls);
    }
}

/// Where position `p` falls in the whole text of `ls`.
pub open spec fn offset(ls: Seq<Seq<char>>, p: Pos) -> int {
    ls.take(p.0 as int).flatten().len() + p.1
}

/// The whole text is the text before fragment `l`, then that fragment, then
/// the text after it.
pub proof fn lemma_flatten_around(ls: Seq<Seq<char>>, l: int)
    requires
        0 <= l < ls.len(),
    ensures
        ls.flatten() == ls.take(l).flatten() + ls[l] + ls.skip(l + 1).flatten(),
{
    let one = seq![ls[l]];
    assert(ls =~= ls.take(l) + one + ls.skip(l + 1));
    lemma_flatten_concat(ls.take(l) + one, ls.skip(l + 1));
    lemma_flatten_concat(ls.take(l), one);
    one.lemma_flatten_one_element();
}

/// Removing a range removes exactly its characters from the whole text.
pub proof fn lemma_deleted_text(ls: Seq<Seq<char>>, start: Pos, end: Pos)
    requires
        valid_pos(ls, start),
        valid_pos(ls, end),
        pos_le(start, end),
    ensures
        deleted(ls, start, end).flatten() == ls.flatten().take(offset(ls, start)) + ls.flatten().skip(
            offset(ls, end),
        ),
{
    let l0 = start.0 as int;
    let l1 = end.0 as int;
    let c0 = start.1 as int;
    let c1 = end.1 as int;
    let d = deleted(ls, start, end);
    let a = ls.take(l0).flatten();
    let b = ls.skip(l1 + 1).flatten();
    lemma_flatten_around(d, l0);
    assert(d.take(l0) =~= ls.take(l0));
    assert(d.skip(l0 + 1) =~= ls.skip(l1 + 1));
    lemma_flatten_around(ls, l1);
    let whole = ls.flatten();
    if l0 == l1 {
        assert(whole.take(offset(ls, start)) =~= a + ls[l0].take(c0));
        assert(whole.skip(offset(ls, end)) =~= ls[l0].skip(c1) + b);
    } else {
        let pre = ls.take(l1);
        lemma_flatten_around(pre, l0);
        assert(pre.take(l0) =~= ls.take(l0));
        assert(pre[l0] == ls[l0]);
        let m = pre.skip(l0 + 1).flatten();
        assert(pre.flatten() == a + ls[l0] + m);
        assert(whole.take(offset(ls, start)) =~= a + ls[l0].take(c0));
        assert(whole.skip(offset(ls, end)) =~= ls[l1].skip(c1) + b);
    }
    assert(d.flatten() =~= whole.take(offset(ls, start)) + whole.skip(offset(ls, end)));
}

/// Inserting text puts exactly its characters into the whole text at the
/// position's offset.
pub proof fn lemma_inserted_text(ls: Seq<Seq<char>>, at: Pos, t: Seq<char>)
    requires
        valid_pos(ls, at),
    ensures
        inserted(ls, at, split_lines(t)).flatten() == ls.flatten().take(offset(ls, at)) + t
            + ls.flatten().skip(offset(ls, at)),
{
    let l = at.0 as int;
    let c = at.1 as int;
    let f = split_lines(t);
    let ins = inserted(ls, at, f);
    let a = ls.take(l).flatten();
    let b = ls.skip(l + 1).flatten();
    let pre = ls[l].take(c);
    let post = ls[l].skip(c);
    lemma_split_lines_flatten(t);
    lemma_split_from_nonempty(t, 0, 0);
    lemma_flatten_around(ls, l);
    let whole = ls.flatten();
    assert(whole.take(offset(ls, at)) =~= a + pre);
    assert(whole.skip(offset(ls, at)) =~= post + b);
    if f.len() == 1 {
        f.lemma_flatten_one_element();
        lemma_flatten_around(ins, l);
        assert(ins.take(l) =~= ls.take(l));
        assert(ins.skip(l + 1) =~= ls.skip(l + 1));
        assert(ins.flatten() =~= a + pre + t + post + b);
    } else {
        let k = f.len();
        let mid = f.subrange(1, k - 1);
        let head = seq![pre + f[0]];
        let tail = seq![f.last() + post];
        assert(ins =~= ls.take(l) + head + mid + tail + ls.skip(l + 1));
        lemma_flatten_concat(ls.take(l) + head + mid + tail, ls.skip(l + 1));
        lemma_flatten_concat(ls.take(l) + head + mid, tail);
        lemma_flatten_concat(ls.take(l) + head, mid);
        lemma_flatten_concat(ls.take(l), head);
        head.lemma_flatten_one_element();
        tail.lemma_flatten_one_element();
        let f0 = seq![f[0]];
        let fl = seq![f.last()];
        assert(f =~= f0 + mid + fl);
        lemma_flatten_concat(f0 + mid, fl);
        lemma_flatten_concat(f0, mid);
        f0.lemma_flatten_one_element();
        fl.lemma_flatten_one_element();
        assert(ins.flatten() =~= a + pre + t + post + b);
    }
}

/// Replacing a range by `t` replaces exactly its characters in the whole
/// text by those of `t`.
pub proof fn lemma_updated_text(ls: Seq<Seq<char>>, start: Pos, end: Pos, t: Seq<char>)
    requires
        valid_pos(ls, start),
        valid_pos(ls, end),
        pos_le(start, end),
    ensures
        updated(ls, start, end, t).flatten() == ls.flatten().take(offset(ls, start)) + t
            + ls.flatten().skip(offset(ls, end)),
{
    let d = deleted(ls, start, end);
    lemma_deleted_text(ls, start, end);
    assert(valid_pos(d, start));
    lemma_inserted_text(d, start, t);
    assert(d.take(start.0 as int) =~= ls.take(start.0 as int));
    assert(offset(d, start) == offset(ls, start));
    let whole = ls.flatten();
    lemma_flatten_around(ls, start.0 as int);
    let x = whole.take(offset(ls, start));
    let y = whole.skip(offset(ls, end));
    assert(x.len() == offset(ls, start));
    assert(d.flatten().take(offset(d, start)) =~= x);
    assert(d.flatten().skip(offset(d, start)) =~= y);
}

/// A multi-line text document as line fragments, each holding its own
/// terminator; there is always at least one fragment.
#[derive(Debug)]
pub struct Buffer {
    lines: Vec<Vec<char>>,
}

impl View for Buffer {
    type V = Seq<Seq<char>>;

    closed spec fn view(&self) -> Seq<Seq<char>> {
        views(self.lines@)
    }
}

impl Buffer {
    /// The buffer holds at least one fragment.
    pub open spec fn wf(&self) -> bool {
        self@.len() >= 1
    }

    /// The whole text of the buffer.
    pub open spec fn text(&self) -> Seq<char> {
        self@.flatten()
    }

    /// A buffer holding one empty fragment.
    pub fn new_empty() -> (r: Self)
        ensures
            r@ == seq![Seq::<char>::empty()],
            r.wf(),
    {
        let r = Buffer { lines: vec![Vec::new()] };
        proof {
            assert(r@ =~= seq![Seq::<char>::empty()]);
        }
        r
    }

    /// Removes the text from `start` up to, not including, `end`.
    pub fn delete_range(&mut self, start: Pos, end: Pos)
        requires
            old(self).wf(),
            valid_pos(old(self)@, start),
            valid_pos(old(self)@, end),
            pos_le(start, end),
        ensures
            final(self).wf(),
            final(self)@ == deleted(old(self)@, start, end),
            final(self).text() == old(self).text().take(offset(old(self)@, start)) + old(
                self,
            ).text().skip(offset(old(self)@, end)),
    {
        proof {
            lemma_deleted_text(self@, start, end);
        }
        let ghost ls = self@;
        let mut joined = copy_range(&self.lines[start.0], 0, start.1);
        let end_len = self.lines[end.0].len();
        let mut tail = copy_range(&self.lines[end.0], end.1, end_len);
        joined.append(&mut tail);
        let ghost j = joined@;
        self.lines[start.0] = joined;
        proof {
            assert(self@ =~= ls.take(start.0 as int).push(j) + ls.skip(start.0 + 1));
        }
        let mut k: usize = start.0;
        while k < end.0
            invariant
                start.0 <= k <= end.0,
                end.0 < ls.len(),
                self.lines.len() == ls.len() - (k - start.0),
                self@ == ls.take(start.0 as int).push(j) + ls.skip(k + 1),
            decreases end.0 - k,
        {
            let ghost before = self@;
            self.lines.remove(start.0 + 1);
            k = k + 1;
            proof {
                assert(self@ =~= before.remove(start.0 + 1));
                assert(self@ =~= ls.take(start.0 as int).push(j) + ls.skip(k + 1));
            }
        }
        proof {
            assert(j =~= ls[start.0 as int].take(start.1 as int) + ls[end.0 as int].skip(end.1 as int));
        }
    }

    /// Inserts `text` at `start`, splitting it into fragments as construction does.
    pub fn insert(&mut self, start: Pos, text: &str)
        requires
            old(self).wf(),
            valid_pos(old(self)@, start),
        ensures
            final(self).wf(),
            final(self)@ == inserted(old(self)@, start, split_lines(text@)),
            final(self).text() == old(self).text().take(offset(old(self)@, start)) + text@ + old(
                self,
            ).text().skip(offset(old(self)@, start)),
    {
        proof {
            lemma_inserted_text(self@, start, text@);
        }
        let ghost ls = self@;
        let chars = chars_of(text);
        let frags = split(&chars);
        let n = frags.len();
        if n == 0 {
            return;
        }
        let l = start.0;
        let line_len = self.lines[l].len();
        let mut head = copy_range(&self.lines[l], 0, start.1);
        let mut tail = copy_range(&self.lines[l], start.1, line_len);
        let mut first = copy_range(&frags[0], 0, frags[0].len());
        proof {
            assert(first@ =~= frags@[0]@);
            assert(split_lines(text@)[0] == views(frags@)[0]);
            assert(head@ =~= ls[l as int].take(start.1 as int));
            assert(tail@ =~= ls[l as int].skip(start.1 as int));
        }
        if n == 1 {
            head.append(&mut first);
            head.append(&mut tail);
            self.lines[l] = head;
            proof {
                assert(self@ =~= inserted(ls, start, split_lines(text@)));
            }
        } else {
            head.append(&mut first);
            let ghost h = head@;
            self.lines[l] = head;
            proof {
                assert(self@ =~= ls.update(l as int, h));
                assert(self@ =~= ls.take(l as int).push(ls[l as int].take(start.1 as int) + frags@[0]@)
                    + views(frags@).subrange(1, 1) + ls.skip(l + 1));
            }
            let mut j: usize = 1;
            while j < n - 1
                invariant
                    1 <= j <= n - 1,
                    n == frags.len(),
                    n >= 2,
                    l < ls.len(),
                    self.lines.len() == ls.len() + j - 1,
                    tail@ == ls[l as int].skip(start.1 as int),
                    views(frags@) == split_lines(text@),
                    self@ == ls.take(l as int).push(ls[l as int].take(start.1 as int) + frags@[0]@)
                        + views(frags@).subrange(1, j as int) + ls.skip(l + 1),
                decreases n - 1 - j,
            {
                let piece = copy_range(&frags[j], 0, frags[j].len());
                proof {
                    assert(piece@ =~= frags@[j as int]@);
                }
                let ghost before = self@;
                self.lines.insert(l + j, piece);
                proof {
                    assert(self@ =~= before.insert(l + j, frags@[j as int]@));
                }
                j = j + 1;
                proof {
                    assert(self@ =~= ls.take(l as int).push(ls[l as int].take(start.1 as int) + frags@[0]@)
                        + views(frags@).subrange(1, j as int) + ls.skip(l + 1));
                }
            }
            let mut last = copy_range(&frags[n - 1], 0, frags[n - 1].len());
            proof {
                assert(last@ =~= frags@[n - 1]@);
                assert(split_lines(text@).last() == views(frags@)[n - 1]);
            }
            last.append(&mut tail);
            let ghost before = self@;
            self.lines.insert(l + j, last);
            proof {
                assert(self@ =~= before.insert(l + n - 1, last@));
                assert(self@ =~= inserted(ls, start, split_lines(text@)));
            }
        }
    }

    /// Replaces the text from `start` up to `end` with `text`.
    pub fn update(&mut self, start: Pos, end: Pos, text: &str)
        requires
            old(self).wf(),
            valid_pos(old(self)@, start),
            valid_pos(old(self)@, end),
            pos_le(start, end),
        ensures
            final(self).wf(),
            final(self)@ == updated(old(self)@, start, end, text@),
            final(self).text() == old(self).text().take(offset(old(self)@, start)) + text@ + old(
                self,
            ).text().skip(offset(old(self)@, end)),
    {
        proof {
            lemma_updated_text(self@, start, end, text@);
        }
        self.delete_range(start, end);
        self.insert(start, text);
    }

    /// `p` addresses a fragment of this buffer and a column within it.
    pub fn is_valid_pos(&self, p: Pos) -> (r: bool)
        ensures
            r == valid_pos(self@, p),
    {
        p.0 < self.lines.len() && p.1 <= self.lines[p.0].len()
    }

    /// Replaces the text from `start` up to `end` with `text` where both
    /// positions lie in the buffer and `start` comes first; otherwise leaves
    /// the buffer as it is and answers `false`.
    pub fn checked_update(&mut self, start: Pos, end: Pos, text: &str) -> (r: bool)
        requires
            old(self).wf(),
        ensures
            final(self).wf(),
            r == (valid_pos(old(self)@, start) && valid_pos(old(self)@, end) && pos_le(start, end)),
            r ==> final(self)@ == updated(old(self)@, start, end, text@),
            !r ==> final(self)@ == old(self)@,
    {
        if self.is_valid_pos(start) && self.is_valid_pos(end) && (start.0 < end.0 || (start.0
            == end.0 && start.1 <= end.1)) {
            self.update(start, end, text);
            true
        } else {
            false
        }
    }

    /// A buffer holding the fragments of `text`; empty text gives one empty
    /// fragment, as `new_empty` does.
    pub fn from_text(text: &str) -> (r: Self)
        ensures
            r.wf(),
            r@ == split_lines(text@),
            r.text() == text@,
    {
        let chars = chars_of(text);
        let frags = split(&chars);
        proof {
            lemma_split_from_nonempty(text@, 0, 0);
            lemma_split_lines_flatten(text@);
        }
        Buffer { lines: frags }
    }

    /// The number of fragments.
    pub fn line_count(&self) -> (r: usize)
        ensures
            r == self@.len(),
    {
        self.lines.len()
    }

    /// Each fragment as a string.
    pub fn lines(&self) -> (r: Vec<String>)
        ensures
            r@.len() == self@.len(),
            forall|i: int| 0 <= i < r@.len() ==> #[trigger] r@[i]@ == self@[i],
    {
        let mut out: Vec<String> = Vec::new();
        let mut k: usize = 0;
        while k < self.lines.len()
            invariant
                k <= self.lines.len(),
                out@.len() == k,
                forall|i: int| 0 <= i < k ==> #[trigger] out@[i]@ == self@[i],
            decreases self.lines.len() - k,
        {
            let s = string_of(&self.lines[k]);
            out.push(s);
            k = k + 1;
        }
        out
    }

    /// The whole text as one string.
    pub fn contents(&self) -> (r: String)
        requires
            self.wf(),
        ensures
            r@ == self.text(),
    {
        let mut out = String::new();
        let mut it = self.chars();
        loop
            invariant
                it.wf(),
                it.source() == self@,
                out@ + it.remaining() == self.text(),
            ensures
                out@ == self.text(),
            decreases it.measure(),
        {
            match it.next() {
                Some(c) => {
                    proof {
                        assert(out@.push(c) + it.remaining() =~= self.text());
                    }
                    out.push(c);
                },
                None => {
                    assert(out@ =~= self.text());
                    break;
                },
            }
        }
        out
    }

    /// The characters of the whole text, in document order.
    pub fn chars<'a>(&'a self) -> (r: Chars<'a>)
        requires
            self.wf(),
        ensures
            r.wf(),
            r.source() == self@,
            r.remaining() == self.text(),
    {
        let r = Chars { buffer: self, line: 0, col: 0 };
        proof {
            assert(self@[0].skip(0) =~= self@[0]);
            assert(self@.skip(1) =~= self@.drop_first());
        }
        r
    }
}


/// Walks the characters of a buffer in document order.
pub struct Chars<'a> {
    buffer: &'a Buffer,
    line: usize,
    col: usize,
}

impl<'a> Chars<'a> {
    /// The buffer being walked.
    pub closed spec fn source(&self) -> Seq<Seq<char>> {
        self.buffer@
    }

    /// The walk stands on a fragment, or just past the last one.
    pub closed spec fn wf(&self) -> bool {
        &&& self.line <= self.buffer@.len()
        &&& self.line < self.buffer@.len() ==> self.col <= self.buffer@[self.line as int].len()
    }

    /// The characters still to come.
    pub closed spec fn remaining(&self) -> Seq<char> {
        let ls = self.buffer@;
        if self.line < ls.len() {
            ls[self.line as int].skip(self.col as int) + ls.skip(self.line + 1).flatten()
        } else {
            Seq::empty()
        }
    }

    /// Decreases with every character handed out.
    pub closed spec fn measure(&self) -> nat {
        self.remaining().len()
    }

    /// Hands out the next character, or `None` once the text is used up.
    pub fn next(&mut self) -> (r: Option<char>)
        requires
            old(self).wf(),
        ensures
            final(self).wf(),
            final(self).source() == old(self).source(),
            old(self).remaining().len() == 0 ==> r is None && final(self).remaining() == old(
                self,
            ).remaining(),
            old(self).remaining().len() > 0 ==> r == Some(old(self).remaining()[0])
                && final(self).remaining() == old(self).remaining().drop_first(),
    {
        let ghost rem = self.remaining();
        let ghost src = self.buffer@;
        loop
            invariant
                self.wf(),
                self.buffer@ == src,
                self.remaining() == rem,
                rem == old(self).remaining(),
                src == old(self).source(),
            decreases src.len() - self.line,
        {
            if self.line >= self.buffer.lines.len() {
                return None;
            }
            let n = self.buffer.lines[self.line].len();
            if self.col < n {
                let c = self.buffer.lines[self.line][self.col];
                self.col = self.col + 1;
                proof {
                    assert(self.remaining() =~= rem.drop_first());
                }
                return Some(c);
            }
            proof {
                let rest = src.skip(self.line + 1);
                if self.line + 1 < src.len() {
                    assert(rest.first() == src[self.line + 1]);
                    assert(rest.drop_first() =~= src.skip(self.line + 2));
                    assert(src[self.line + 1].skip(0) =~= src[self.line + 1]);
                } else {
                    assert(rest =~= Seq::<Seq<char>>::empty());
                }
                assert(src[self.line as int].skip(self.col as int) =~= Seq::<char>::empty());
            }
            self.line = self.line + 1;
            self.col = 0;
        }
    }
}

} // verus!

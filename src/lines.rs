//! Character-level helpers: splitting text into line fragments at `\n`, `\r`
//! and `\r\n`, copying, building and comparing character sequences.
use vstd::prelude::*;
use vstd::seq_lib::lemma_flatten_concat;
use vstd::std_specs::iter::IteratorSpec;

verus! {

broadcast use vstd::string::group_string_axioms;

/// The contents of each fragment of `v`.
pub open spec fn views(v: Seq<Vec<char>>) -> Seq<Seq<char>> {
    Seq::new(v.len(), |i: int| v[i]@)
}

/// The fragments of `s` from index `i` on, where the fragment being scanned
/// began at `start`: each fragment keeps its own terminator, `\r\n` is one
/// terminator, and what follows the last terminator, empty or not, is the
/// last fragment.
pub open spec fn split_from(s: Seq<char>, start: int, i: int) -> Seq<Seq<char>>
    decreases s.len() - i,
{
    if i < 0 || i >= s.len() {
        seq![s.subrange(start, s.len() as int)]
    } else if s[i] == '\n' {
        seq![s.subrange(start, i + 1)] + split_from(s, i + 1, i + 1)
    } else if s[i] == '\r' {
        if i + 1 < s.len() && s[i + 1] == '\n' {
            seq![s.subrange(start, i + 2)] + split_from(s, i + 2, i + 2)
        } else {
            seq![s.subrange(start, i + 1)] + split_from(s, i + 1, i + 1)
        }
    } else {
        split_from(s, start, i + 1)
    }
}

/// The line fragments of `s`; empty text is one empty fragment.
pub open spec fn split_lines(s: Seq<char>) -> Seq<Seq<char>> {
    split_from(s, 0, 0)
}

/// Joining the fragments scanned from `start` gives back the text from `start` on.
pub proof fn lemma_split_from_flatten(s: Seq<char>, start: int, i: int)
    requires
        0 <= start <= i <= s.len(),
    ensures
        split_from(s, start, i).flatten() == s.subrange(start, s.len() as int),
    decreases s.len() - i,
{
    if i >= s.len() {
        let f = seq![s.subrange(start, s.len() as int)];
        f.lemma_flatten_one_element();
    } else {
        let j = if s[i] == '\n' {
            i + 1
        } else if s[i] == '\r' && i + 1 < s.len() && s[i + 1] == '\n' {
            i + 2
        } else if s[i] == '\r' {
            i + 1
        } else {
            -1
        };
        if j < 0 {
            lemma_split_from_flatten(s, start, i + 1);
        } else {
            lemma_split_from_flatten(s, j, j);
            let head = seq![s.subrange(start, j)];
            let tail = split_from(s, j, j);
            lemma_flatten_concat(head, tail);
            head.lemma_flatten_one_element();
            assert(s.subrange(start, j) + s.subrange(j, s.len() as int) =~= s.subrange(
                start,
                s.len() as int,
            ));
        }
    }
}

/// Joining the fragments of `s` gives back `s`.
pub proof fn lemma_split_lines_flatten(s: Seq<char>)
    ensures
        split_lines(s).flatten() == s,
{
    lemma_split_from_flatten(s, 0, 0);
    assert(s.subrange(0, s.len() as int) =~= s);
}

/// The characters of `s`, one by one.
pub fn chars_of(s: &str) -> (r: Vec<char>)
    ensures
        r@ == s@,
{
    let mut out: Vec<char> = Vec::new();
    let mut it = s.chars();
    loop
        invariant
            out@ + it.remaining() == s@,
            it.decrease() is Some,
        ensures
            out@ == s@,
        decreases it.decrease()->0,
    {
        match it.next() {
            Some(c) => out.push(c),
            None => {
                assert(out@ =~= s@);
                break;
            },
        }
    }
    out
}

/// Copies `s[from..to]` into a new vector.
pub fn copy_range(s: &Vec<char>, from: usize, to: usize) -> (r: Vec<char>)
    requires
        from <= to <= s.len(),
    ensures
        r@ == s@.subrange(from as int, to as int),
{
    let mut out: Vec<char> = Vec::new();
    let mut k: usize = from;
    while k < to
        invariant
            from <= k <= to <= s.len(),
            out@ == s@.subrange(from as int, k as int),
        decreases to - k,
    {
        out.push(s[k]);
        k = k + 1;
        proof {
            assert(out@ =~= s@.subrange(from as int, k as int));
        }
    }
    out
}

/// Splits `s` into line fragments, each keeping its terminator.
pub fn split(s: &Vec<char>) -> (r: Vec<Vec<char>>)
    ensures
        views(r@) == split_lines(s@),
{
    let mut out: Vec<Vec<char>> = Vec::new();
    let n = s.len();
    let mut start: usize = 0;
    let mut i: usize = 0;
    while i < n
        invariant
            n == s.len(),
            start <= i <= n,
            views(out@) + split_from(s@, start as int, i as int) == split_lines(s@),
        decreases n - i,
    {
        let c = s[i];
        if c == '\n' || (c == '\r' && !(i + 1 < n && s[i + 1] == '\n')) {
            let piece = copy_range(s, start, i + 1);
            proof {
                assert(views(out@).push(piece@) + split_from(s@, i + 1, i + 1) =~= views(out@)
                    + split_from(s@, start as int, i as int));
            }
            let ghost before = views(out@);
            out.push(piece);
            proof {
                assert(views(out@) =~= before.push(piece@));
            }
            i = i + 1;
            start = i;
        } else if c == '\r' {
            let piece = copy_range(s, start, i + 2);
            proof {
                assert(views(out@).push(piece@) + split_from(s@, i + 2, i + 2) =~= views(out@)
                    + split_from(s@, start as int, i as int));
            }
            let ghost before = views(out@);
            out.push(piece);
            proof {
                assert(views(out@) =~= before.push(piece@));
            }
            i = i + 2;
            start = i;
        } else {
            i = i + 1;
        }
    }
    let piece = copy_range(s, start, n);
    let ghost before = views(out@);
    out.push(piece);
    proof {
        assert(views(out@) =~= before.push(piece@));
    }
    proof {
        assert(views(out@) =~= split_lines(s@));
    }
    out
}


/// There is always at least one fragment.
pub proof fn lemma_split_from_nonempty(s: Seq<char>, start: int, i: int)
    requires
        0 <= start <= i <= s.len(),
    ensures
        split_from(s, start, i).len() > 0,
    decreases s.len() - i,
{
    if i < s.len() && s[i] != '\n' && s[i] != '\r' {
        lemma_split_from_nonempty(s, start, i + 1);
    }
}

/// Relies on `String::push`: the character is appended at the end.
pub assume_specification[ String::push ](s: &mut String, ch: char)
    ensures
        final(s)@ == old(s)@.push(ch),
;

/// A string holding the characters of `v`.
pub fn string_of(v: &Vec<char>) -> (r: String)
    ensures
        r@ == v@,
{
    let mut out = String::new();
    let mut k: usize = 0;
    while k < v.len()
        invariant
            k <= v.len(),
            out@ == v@.take(k as int),
        decreases v.len() - k,
    {
        out.push(v[k]);
        k = k + 1;
        proof {
            assert(out@ =~= v@.take(k as int));
        }
    }
    proof {
        assert(out@ =~= v@);
    }
    out
}


/// There is at most one fragment more than there are characters from `start` on.
pub proof fn lemma_split_from_count(s: Seq<char>, start: int, i: int)
    requires
        0 <= start <= i <= s.len(),
    ensures
        split_from(s, start, i).len() <= s.len() - start + 1,
    decreases s.len() - i,
{
    if i < s.len() {
        if s[i] == '\n' || s[i] == '\r' {
            let j = if s[i] == '\r' && i + 1 < s.len() && s[i + 1] == '\n' {
                i + 2
            } else {
                i + 1
            };
            lemma_split_from_count(s, j, j);
        } else {
            lemma_split_from_count(s, start, i + 1);
        }
    }
}

/// `a` and `b` hold the same characters.
pub fn same_text(a: &str, b: &str) -> (r: bool)
    ensures
        r == (a@ == b@),
{
    let x = chars_of(a);
    let y = chars_of(b);
    if x.len() != y.len() {
        assert(x@.len() != y@.len());
        return false;
    }
    let mut k: usize = 0;
    while k < x.len()
        invariant
            x.len() == y.len(),
            x@ == a@,
            y@ == b@,
            k <= x.len(),
            forall|i: int| 0 <= i < k ==> x@[i] == y@[i],
        decreases x.len() - k,
    {
        if x[k] != y[k] {
            assert(x@[k as int] != y@[k as int]);
            return false;
        }
        k = k + 1;
    }
    proof {
        assert(x@ =~= y@);
    }
    true
}

} // verus!

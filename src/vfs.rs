//! The store of open documents, keyed by their identifier.
use vstd::prelude::*;
use crate::buffer::{Buffer, Pos, pos_le, updated, valid_pos};
use crate::lines::same_text;

verus! {

/// What a document holds: identifier, language, version and fragments.
pub struct DocView {
    pub name: Seq<char>,
    pub language: Seq<char>,
    pub version: i32,
    pub lines: Seq<Seq<char>>,
}

/// An open document.
pub struct File {
    name: String,
    language: String,
    version: i32,
    content: Buffer,
}

impl View for File {
    type V = DocView;

    closed spec fn view(&self) -> DocView {
        DocView {
            name: self.name@,
            language: self.language@,
            version: self.version,
            lines: self.content@,
        }
    }
}

impl File {
    /// The document's buffer has at least one fragment.
    pub closed spec fn wf(&self) -> bool {
        self.content.wf()
    }

    /// A document named `name`, of language `language`, at version `version`.
    pub fn new(name: String, language: String, version: i32, content: Buffer) -> (r: Self)
        requires
            content.wf(),
        ensures
            r.wf(),
            r@ == (DocView { name: name@, language: language@, version, lines: content@ }),
    {
        File { name, language, version, content }
    }

    /// The version the client last gave.
    pub fn version(&self) -> (r: i32)
        ensures
            r == self@.version,
    {
        self.version
    }

    /// The document's identifier.
    pub fn name(&self) -> (r: &str)
        ensures
            r@ == self@.name,
    {
        self.name.as_str()
    }

    /// The document's language.
    pub fn language(&self) -> (r: &str)
        ensures
            r@ == self@.language,
    {
        self.language.as_str()
    }

    /// The document's text.
    pub fn content_ref(&self) -> (r: &Buffer)
        requires
            self.wf(),
        ensures
            r@ == self@.lines,
            r.wf(),
    {
        &self.content
    }
}

/// One edit of a change notification: replace `start..end` with `text`.
pub struct Change {
    pub start: Pos,
    pub end: Pos,
    pub text: String,
}

/// The edits of `cs`, each as positions and text.
pub open spec fn change_views(cs: Seq<Change>) -> Seq<(Pos, Pos, Seq<char>)> {
    Seq::new(cs.len(), |i: int| (cs[i].start, cs[i].end, cs[i].text@))
}

/// The edit `c` can be made on `ls`.
pub open spec fn edit_ok(ls: Seq<Seq<char>>, c: (Pos, Pos, Seq<char>)) -> bool {
    valid_pos(ls, c.0) && valid_pos(ls, c.1) && pos_le(c.0, c.1)
}

/// The fragments after the first `n` edits of `cs` are made in order, each on
/// the result of those before it, and whether all of them could be made; at
/// the first edit that cannot be made the fragments stay as they are.
pub open spec fn apply_upto(ls: Seq<Seq<char>>, cs: Seq<(Pos, Pos, Seq<char>)>, n: nat) -> (
    Seq<Seq<char>>,
    bool,
)
    decreases n,
{
    if n == 0 {
        (ls, true)
    } else {
        let prev = apply_upto(ls, cs, (n - 1) as nat);
        if !prev.1 {
            prev
        } else if edit_ok(prev.0, cs[n - 1]) {
            (updated(prev.0, cs[n - 1].0, cs[n - 1].1, cs[n - 1].2), true)
        } else {
            (prev.0, false)
        }
    }
}

/// Making all edits of `cs` in order on `ls`.
pub open spec fn apply_all(ls: Seq<Seq<char>>, cs: Seq<(Pos, Pos, Seq<char>)>) -> (
    Seq<Seq<char>>,
    bool,
) {
    apply_upto(ls, cs, cs.len())
}

/// Once an edit cannot be made, the later ones change nothing.
pub proof fn lemma_apply_upto_stuck(ls: Seq<Seq<char>>, cs: Seq<(Pos, Pos, Seq<char>)>, k: nat, m: nat)
    requires
        k <= m,
        !apply_upto(ls, cs, k).1,
    ensures
        apply_upto(ls, cs, m) == apply_upto(ls, cs, k),
    decreases m - k,
{
    if k < m {
        lemma_apply_upto_stuck(ls, cs, k, (m - 1) as nat);
    }
}

/// Why an operation on the store failed.
#[derive(Debug, PartialEq, Eq, Clone, Copy)]
pub enum VfsError {
    /// No document has the identifier.
    NotFound,
    /// An edit addressed a position outside the document, or its start came
    /// after its end.
    InvalidRange,
}

/// The index of the first document named `name` in `docs`, at or after `i`.
pub open spec fn find_from(docs: Seq<DocView>, name: Seq<char>, i: int) -> Option<int>
    decreases docs.len() - i,
{
    if i < 0 || i >= docs.len() {
        None
    } else if docs[i].name == name {
        Some(i)
    } else {
        find_from(docs, name, i + 1)
    }
}

/// The index of the document named `name` in `docs`.
pub open spec fn find(docs: Seq<DocView>, name: Seq<char>) -> Option<int> {
    find_from(docs, name, 0)
}

/// A found index is in range and names `name`; none is found only where no
/// document from `i` on has that name.
pub proof fn lemma_find_from(docs: Seq<DocView>, name: Seq<char>, i: int)
    requires
        0 <= i,
    ensures
        find_from(docs, name, i) matches Some(j) ==> i <= j < docs.len() && docs[j].name == name
            && forall|k: int| i <= k < j ==> docs[k].name != name,
        find_from(docs, name, i) is None ==> forall|k: int| i <= k < docs.len() ==> docs[k].name
            != name,
    decreases docs.len() - i,
{
    if i < docs.len() && docs[i].name != name {
        lemma_find_from(docs, name, i + 1);
    }
}

/// The search depends on the identifiers alone.
pub proof fn lemma_find_same_names(a: Seq<DocView>, b: Seq<DocView>, name: Seq<char>, i: int)
    requires
        0 <= i,
        a.len() == b.len(),
        forall|k: int| 0 <= k < a.len() ==> a[k].name == b[k].name,
    ensures
        find_from(a, name, i) == find_from(b, name, i),
    decreases a.len() - i,
{
    if i < a.len() {
        lemma_find_same_names(a, b, name, i + 1);
    }
}

/// Searching after a document is appended finds what was found before, or
/// else the new document where it has the identifier.
pub proof fn lemma_find_push(a: Seq<DocView>, x: DocView, name: Seq<char>, i: int)
    requires
        0 <= i <= a.len(),
    ensures
        find_from(a.push(x), name, i) == (match find_from(a, name, i) {
            Some(j) => Some(j),
            None => if x.name == name {
                Some(a.len() as int)
            } else {
                None
            },
        }),
    decreases a.len() - i,
{
    if i < a.len() {
        assert(a.push(x)[i] == a[i]);
        lemma_find_push(a, x, name, i + 1);
    } else {
        assert(a.push(x)[i] == x);
        assert(find_from(a.push(x), name, i + 1) is None);
    }
}

/// The documents once `d` is opened: it replaces the document of the same
/// identifier, or else joins the end.
pub open spec fn with_doc(docs: Seq<DocView>, d: DocView) -> Seq<DocView> {
    match find(docs, d.name) {
        Some(i) => docs.update(i, d),
        None => docs.push(d),
    }
}

/// The documents once those named `name` are closed.
pub open spec fn without(docs: Seq<DocView>, name: Seq<char>) -> Seq<DocView>
    decreases docs.len(),
{
    if docs.len() == 0 {
        docs
    } else if docs.last().name == name {
        without(docs.drop_last(), name)
    } else {
        without(docs.drop_last(), name).push(docs.last())
    }
}

/// No document named `name` is left once those so named are closed.
pub proof fn lemma_without_absent(docs: Seq<DocView>, name: Seq<char>)
    ensures
        forall|k: int| 0 <= k < without(docs, name).len() ==> #[trigger] without(docs, name)[k].name
            != name,
    decreases docs.len(),
{
    if docs.len() > 0 {
        lemma_without_absent(docs.drop_last(), name);
        let w = without(docs.drop_last(), name);
        if docs.last().name != name {
            assert forall|k: int| 0 <= k < w.len() + 1 implies #[trigger] w.push(docs.last())[k].name
                != name by {
                if k < w.len() {
                    assert(w.push(docs.last())[k] == w[k]);
                }
            }
        }
    }
}

/// The documents once the document named `name` takes version `version` and
/// the edits `cs` are made on it, as far as they can be made.
pub open spec fn changed(
    docs: Seq<DocView>,
    name: Seq<char>,
    version: i32,
    cs: Seq<(Pos, Pos, Seq<char>)>,
) -> Seq<DocView> {
    match find(docs, name) {
        Some(i) => docs.update(
            i,
            DocView {
                name: docs[i].name,
                language: docs[i].language,
                version,
                lines: apply_all(docs[i].lines, cs).0,
            },
        ),
        None => docs,
    }
}

/// The document named `name` in `docs`.
pub open spec fn lookup_in(docs: Seq<DocView>, name: Seq<char>) -> Option<DocView> {
    match find(docs, name) {
        Some(i) => Some(docs[i]),
        None => None,
    }
}

/// The documents of `fs`.
pub open spec fn file_views(fs: Seq<File>) -> Seq<DocView> {
    Seq::new(fs.len(), |i: int| fs[i]@)
}

/// The store of open documents.
pub struct Vfs {
    files: Vec<File>,
}

impl View for Vfs {
    type V = Seq<DocView>;

    closed spec fn view(&self) -> Seq<DocView> {
        file_views(self.files@)
    }
}

impl Vfs {
    /// Every document's buffer has at least one fragment.
    pub closed spec fn wf(&self) -> bool {
        forall|i: int| 0 <= i < self.files@.len() ==> (#[trigger] self.files@[i]).wf()
    }

    /// The document named `name`, if one is open.
    pub open spec fn lookup(&self, name: Seq<char>) -> Option<DocView> {
        lookup_in(self@, name)
    }

    /// A store with no document open.
    pub fn new() -> (r: Self)
        ensures
            r.wf(),
            r@ == Seq::<DocView>::empty(),
    {
        let r = Vfs { files: Vec::new() };
        proof {
            assert(r@ =~= Seq::<DocView>::empty());
        }
        r
    }

    /// The index of the document named `name`.
    fn position(&self, name: &str) -> (r: Option<usize>)
        ensures
            r matches Some(i) ==> find(self@, name@) == Some(i as int),
            r is None ==> find(self@, name@) is None,
    {
        let mut i: usize = 0;
        while i < self.files.len()
            invariant
                i <= self.files.len(),
                find(self@, name@) == find_from(self@, name@, i as int),
            decreases self.files.len() - i,
        {
            if same_text(self.files[i].name.as_str(), name) {
                return Some(i);
            }
            i = i + 1;
        }
        None
    }

    /// The document named `name`.
    pub fn get(&self, name: &str) -> (r: Result<&File, VfsError>)
        requires
            self.wf(),
        ensures
            r matches Ok(f) ==> self.lookup(name@) == Some(f@) && f.wf(),
            r matches Err(e) ==> e == VfsError::NotFound && self.lookup(name@) is None,
    {
        let pos = self.position(name);
        proof {
            lemma_find_from(self@, name@, 0);
        }
        match pos {
            Some(i) => Ok(&self.files[i]),
            None => Err(VfsError::NotFound),
        }
    }

    /// Opens `file`, replacing any open document of the same identifier.
    pub fn add(&mut self, file: File)
        requires
            old(self).wf(),
            file.wf(),
        ensures
            final(self).wf(),
            final(self)@ == with_doc(old(self)@, file@),
            final(self).lookup(file@.name) == Some(file@),
            forall|n: Seq<char>| n != file@.name ==> #[trigger] final(self).lookup(n) == old(
                self,
            ).lookup(n),
    {
        let ghost fv = file@;
        let ghost before = self@;
        let pos = self.position(file.name.as_str());
        proof {
            lemma_find_from(before, fv.name, 0);
        }
        match pos {
            Some(i) => {
                self.files[i] = file;
                proof {
                    assert(self@ =~= before.update(i as int, fv));
                    lemma_find_same_names(self@, before, fv.name, 0);
                    assert forall|n: Seq<char>| n != fv.name implies #[trigger] self.lookup(n)
                        == old(self).lookup(n) by {
                        lemma_find_same_names(self@, before, n, 0);
                        lemma_find_from(self@, n, 0);
                    }
                }
            },
            None => {
                self.files.push(file);
                proof {
                    assert(self@ =~= before.push(fv));
                    lemma_find_push(before, fv, fv.name, 0);
                    assert forall|n: Seq<char>| n != fv.name implies #[trigger] self.lookup(n)
                        == old(self).lookup(n) by {
                        lemma_find_push(before, fv, n, 0);
                        lemma_find_from(before, n, 0);
                    }
                }
            },
        }
    }

    /// Sets the version of the document named `name` and makes the edits of
    /// `changes` on it in order, each on the text left by those before it.
    /// At the first edit whose range does not lie in the text, the edits stop
    /// there and the answer is `InvalidRange`.
    pub fn update(&mut self, name: &str, version: i32, changes: &Vec<Change>) -> (r: Result<
        (),
        VfsError,
    >)
        requires
            old(self).wf(),
        ensures
            final(self).wf(),
            final(self)@ == changed(old(self)@, name@, version, change_views(changes@)),
            old(self).lookup(name@) is None ==> r == Err::<(), VfsError>(VfsError::NotFound),
            old(self).lookup(name@) matches Some(d) ==> (r is Ok <==> apply_all(
                d.lines,
                change_views(changes@),
            ).1) && (r is Err ==> r == Err::<(), VfsError>(VfsError::InvalidRange)),
    {
        let ghost cv = change_views(changes@);
        let ghost before = self@;
        let pos = self.position(name);
        proof {
            lemma_find_from(before, name@, 0);
        }
        let i = match pos {
            Some(i) => i,
            None => {
                return Err(VfsError::NotFound);
            },
        };
        let ghost d = before[i as int];
        self.files[i].version = version;
        let mut k: usize = 0;
        while k < changes.len()
            invariant
                k <= changes.len(),
                cv == change_views(changes@),
                i < self.files.len(),
                i < before.len(),
                before == old(self)@,
                find(before, name@) == Some(i as int),
                d == before[i as int],
                self.wf(),
                apply_upto(d.lines, cv, k as nat).1,
                self@ == before.update(
                    i as int,
                    DocView {
                        name: d.name,
                        language: d.language,
                        version,
                        lines: apply_upto(d.lines, cv, k as nat).0,
                    },
                ),
            decreases changes.len() - k,
        {
            let c = &changes[k];
            assert(cv[k as int] == (c.start, c.end, c.text@));
            let ghost cur = apply_upto(d.lines, cv, k as nat).0;
            assert(self@[i as int] == self.files@[i as int]@);
            assert(self.files@[i as int].content@ == cur);
            let ghost prev_files = self.files@;
            let ghost prev_view = self@;
            let ghost xk = DocView {
                name: d.name,
                language: d.language,
                version,
                lines: cur,
            };
            assert(prev_view == before.update(i as int, xk));
            let done = self.files[i].content.checked_update(c.start, c.end, c.text.as_str());
            if !done {
                proof {
                    assert(!edit_ok(cur, cv[k as int]));
                    assert(!apply_upto(d.lines, cv, (k + 1) as nat).1);
                    lemma_apply_upto_stuck(d.lines, cv, (k + 1) as nat, cv.len());
                    assert(self@ =~= changed(before, name@, version, cv));
                }
                return Err(VfsError::InvalidRange);
            }
            proof {
                assert(edit_ok(cur, cv[k as int]));
                assert(apply_upto(d.lines, cv, (k + 1) as nat) == (
                    updated(cur, c.start, c.end, c.text@),
                    true,
                ));
                assert(self.files@[i as int].content@ == updated(cur, c.start, c.end, c.text@));
                assert forall|j: int| 0 <= j < self.files@.len() && j != i implies self.files@[j]
                    == prev_files[j] by {}
                assert(self.files@[i as int].name == prev_files[i as int].name);
                assert(self.files@[i as int].language == prev_files[i as int].language);
                assert(self.files@[i as int].version == version);
                assert(self.files@.len() == prev_files.len());
                assert(prev_view.len() == prev_files.len());
                assert(prev_view.len() == before.len());
                assert(self@.len() == before.len());
                let target = before.update(
                    i as int,
                    DocView {
                        name: d.name,
                        language: d.language,
                        version,
                        lines: apply_upto(d.lines, cv, (k + 1) as nat).0,
                    },
                );
                assert forall|j: int| 0 <= j < self@.len() implies self@[j] == target[j] by {
                    assert(self@[j] == self.files@[j]@);
                    if j != i {
                        assert(prev_view[j] == prev_files[j]@);
                        assert(before.update(i as int, xk)[j] == before[j]);
                    }
                }
                assert(self@ =~= target);
            }
            k = k + 1;
        }
        proof {
            assert(self@ =~= changed(before, name@, version, cv));
        }
        Ok(())
    }

    /// Closes every document named `name`; `NotFound` where none is open.
    pub fn remove(&mut self, name: &str) -> (r: Result<(), VfsError>)
        requires
            old(self).wf(),
        ensures
            final(self).wf(),
            final(self)@ == without(old(self)@, name@),
            final(self).lookup(name@) is None,
            r is Ok <==> old(self).lookup(name@) is Some,
            r is Err ==> r == Err::<(), VfsError>(VfsError::NotFound),
    {
        let ghost before = self@;
        let mut i: usize = 0;
        let ghost mut g: int = 0;
        let mut found = false;
        while i < self.files.len()
            invariant
                before == old(self)@,
                0 <= g <= before.len(),
                i <= self.files.len(),
                self.wf(),
                self@ == without(before.take(g), name@) + before.skip(g),
                i == without(before.take(g), name@).len(),
                found <==> exists|k: int| 0 <= k < g && before[k].name == name@,
            decreases self.files.len() - i,
        {
            let ghost prev = self@;
            assert(before.take(g + 1).drop_last() =~= before.take(g));
            assert(before.take(g + 1).last() == before[g]);
            assert(prev[i as int] == before[g]);
            if same_text(self.files[i].name.as_str(), name) {
                self.files.remove(i);
                found = true;
                proof {
                    assert(self@ =~= prev.remove(i as int));
                    assert(before[g].name == name@);
                    assert(self@ =~= without(before.take(g + 1), name@) + before.skip(g + 1));
                    g = g + 1;
                }
            } else {
                i = i + 1;
                proof {
                    assert(self@ =~= without(before.take(g + 1), name@) + before.skip(g + 1));
                    g = g + 1;
                }
            }
        }
        proof {
            assert(before.take(g) =~= before);
            assert(self@ =~= without(before, name@));
            lemma_without_absent(before, name@);
            lemma_find_from(self@, name@, 0);
            lemma_find_from(before, name@, 0);
        }
        if found {
            Ok(())
        } else {
            Err(VfsError::NotFound)
        }
    }

    /// The open documents.
    pub fn all_files(&self) -> (r: &[File])
        ensures
            file_views(r@) == self@,
    {
        self.files.as_slice()
    }

    /// The open documents, for changes made through their own methods.
    pub fn all_files_mut(&mut self) -> (r: &mut [File])
        ensures
            file_views(r@) == old(self)@,
            final(self)@ == file_views(final(r)@),
    {
        self.files.as_mut_slice()
    }
}

} // verus!

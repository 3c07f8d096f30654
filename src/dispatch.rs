//! What the running session does with document notifications, and the
//! diagnostics it publishes for a document's text.
use vstd::prelude::*;
use crate::buffer::{Buffer, Pos};
use crate::lines::{chars_of, split_lines};
use vstd::string::StringExecFns;
use crate::vfs::{
    Change, DocView, File, Vfs, VfsError, apply_all, change_views, changed, find, lemma_find_from,
    lemma_find_push, lemma_find_same_names, lemma_without_absent, lookup_in, with_doc, without,
};

verus! {

/// A document notification, decoded.
pub enum DocEvent {
    Open { uri: String, language: String, version: i32, text: String },
    Change { uri: String, version: i32, changes: Vec<Change> },
    Close { uri: String },
}

/// A document's full text, to be checked and reported on.
pub struct Validation {
    pub uri: String,
    pub text: String,
    pub version: i32,
}

/// Applies a document notification to the store. A change that succeeds
/// asks for exactly one validation of the document's new text.
pub fn handle_doc_event(vfs: &mut Vfs, ev: DocEvent) -> (r: Result<Option<Validation>, VfsError>)
    requires
        old(vfs).wf(),
    ensures
        final(vfs).wf(),
        match ev {
            DocEvent::Open { uri, language, version, text } => {
                &&& final(vfs)@ == with_doc(
                    old(vfs)@,
                    DocView { name: uri@, language: language@, version, lines: split_lines(text@) },
                )
                &&& (r matches Ok(None))
            },
            DocEvent::Change { uri, version, changes } => {
                &&& final(vfs)@ == changed(old(vfs)@, uri@, version, change_views(changes@))
                &&& match old(vfs).lookup(uri@) {
                    None => r matches Err(VfsError::NotFound),
                    Some(d) => {
                        let (ls, ok) = apply_all(d.lines, change_views(changes@));
                        if ok {
                            r matches Ok(Some(v)) && v.uri@ == uri@ && v.version == version
                                && v.text@ == ls.flatten()
                        } else {
                            r matches Err(VfsError::InvalidRange)
                        }
                    },
                }
            },
            DocEvent::Close { uri } => {
                &&& final(vfs)@ == without(old(vfs)@, uri@)
                &&& old(vfs).lookup(uri@) is Some ==> (r matches Ok(None))
                &&& old(vfs).lookup(uri@) is None ==> (r matches Err(VfsError::NotFound))
            },
        },
{
    match ev {
        DocEvent::Open { uri, language, version, text } => {
            let content = Buffer::from_text(text.as_str());
            let file = File::new(uri, language, version, content);
            vfs.add(file);
            Ok(None)
        },
        DocEvent::Change { uri, version, changes } => {
            let ghost before = vfs@;
            match vfs.update(uri.as_str(), version, &changes) {
                Ok(()) => {
                    proof {
                        lemma_find_from(before, uri@, 0);
                        assert(vfs@.len() == before.len());
                        assert forall|k: int| 0 <= k < vfs@.len() implies vfs@[k].name
                            == before[k].name by {}
                        lemma_find_same_names(vfs@, before, uri@, 0);
                    }
                    match vfs.get(uri.as_str()) {
                        Ok(file) => {
                            let text = file.content_ref().contents();
                            Ok(Some(Validation { uri, text, version }))
                        },
                        Err(e) => Err(e),
                    }
                },
                Err(e) => Err(e),
            }
        },
        DocEvent::Close { uri } => match vfs.remove(uri.as_str()) {
            Ok(()) => Ok(None),
            Err(e) => Err(e),
        },
    }
}

/// Opening a document and then changing it leaves the document under the
/// new version with the edits made, and closing it then leaves no document
/// of that identifier.
pub proof fn lemma_document_lifecycle(
    docs: Seq<DocView>,
    d: DocView,
    version: i32,
    cs: Seq<(Pos, Pos, Seq<char>)>,
)
    ensures
        lookup_in(with_doc(docs, d), d.name) == Some(d),
        lookup_in(changed(with_doc(docs, d), d.name, version, cs), d.name) == Some(
            DocView {
                name: d.name,
                language: d.language,
                version,
                lines: apply_all(d.lines, cs).0,
            },
        ),
        lookup_in(without(changed(with_doc(docs, d), d.name, version, cs), d.name), d.name) is None,
{
    let opened = with_doc(docs, d);
    lemma_find_from(docs, d.name, 0);
    match find(docs, d.name) {
        Some(i) => {
            lemma_find_same_names(opened, docs, d.name, 0);
        },
        None => {
            lemma_find_push(docs, d, d.name, 0);
        },
    }
    let ch = changed(opened, d.name, version, cs);
    lemma_find_same_names(ch, opened, d.name, 0);
    let gone = without(ch, d.name);
    lemma_without_absent(ch, d.name);
    lemma_find_from(gone, d.name, 0);
}


/// The word whose presence in a document draws a warning.
pub const FLAGGED_WORD: &'static str = "hello";

/// The source named in the warning.
pub const DIAGNOSTIC_SOURCE: &'static str = "ex";

/// The warning's message.
pub const DIAGNOSTIC_MESSAGE: &'static str = "aaa";

/// How serious a diagnostic is.
#[derive(Debug, Clone, Copy, PartialEq, Eq, Structural)]
pub enum Severity {
    Error,
    Warning,
    Information,
    Hint,
}

/// A diagnostic record: a range of the document, a severity, the tool that
/// raised it and a message.
#[derive(Debug)]
pub struct Diagnostic {
    pub start: Pos,
    pub end: Pos,
    pub severity: Severity,
    pub source: String,
    pub message: String,
}

/// `needle` occurs in `hay` at index `i`.
pub open spec fn occurs_at(hay: Seq<char>, needle: Seq<char>, i: int) -> bool {
    0 <= i && i + needle.len() <= hay.len() && hay.subrange(i, i + needle.len()) == needle
}

/// `needle` occurs somewhere in `hay`.
pub open spec fn occurs(hay: Seq<char>, needle: Seq<char>) -> bool {
    exists|i: int| occurs_at(hay, needle, i)
}

/// The first index at which `needle` occurs in `hay`.
pub fn find_text(hay: &Vec<char>, needle: &Vec<char>) -> (r: Option<usize>)
    ensures
        r matches Some(i) ==> occurs_at(hay@, needle@, i as int) && forall|j: int|
            0 <= j < i ==> !occurs_at(hay@, needle@, j),
        r is None ==> !occurs(hay@, needle@),
{
    if needle.len() > hay.len() {
        return None;
    }
    let last = hay.len() - needle.len();
    let mut i: usize = 0;
    while i <= last
        invariant
            last == hay.len() - needle.len(),
            i <= last + 1,
            forall|j: int| 0 <= j < i ==> !occurs_at(hay@, needle@, j),
        decreases last + 1 - i,
    {
        let mut k: usize = 0;
        while k < needle.len() && hay[i + k] == needle[k]
            invariant
                i <= last,
                last == hay.len() - needle.len(),
                k <= needle.len(),
                forall|m: int| 0 <= m < k ==> hay@[i + m] == needle@[m],
            decreases needle.len() - k,
        {
            k = k + 1;
        }
        if k == needle.len() {
            assert(hay@.subrange(i as int, i + needle.len()) =~= needle@);
            return Some(i);
        }
        assert(hay@.subrange(i as int, i + needle.len())[k as int] != needle@[k as int]);
        i = i + 1;
    }
    proof {
        assert forall|j: int| !occurs_at(hay@, needle@, j) by {
            if 0 <= j && j + needle.len() <= hay.len() {
                assert(j < i);
            }
        }
    }
    None
}

/// The diagnostics of a document's text: one warning on its first character
/// where `FLAGGED_WORD` occurs in it, none otherwise.
pub fn diagnostics(text: &str) -> (r: Vec<Diagnostic>)
    ensures
        occurs(text@, FLAGGED_WORD@) ==> r@.len() == 1 && r@[0].start == (0usize, 0usize)
            && r@[0].end == (0usize, 1usize) && r@[0].severity == Severity::Warning
            && r@[0].source@ == DIAGNOSTIC_SOURCE@ && r@[0].message@ == DIAGNOSTIC_MESSAGE@,
        !occurs(text@, FLAGGED_WORD@) ==> r@.len() == 0,
{
    let hay = chars_of(text);
    let needle = chars_of(FLAGGED_WORD);
    let mut out: Vec<Diagnostic> = Vec::new();
    match find_text(&hay, &needle) {
        Some(_) => {
            out.push(
                Diagnostic {
                    start: (0, 0),
                    end: (0, 1),
                    severity: Severity::Warning,
                    source: String::from_str(DIAGNOSTIC_SOURCE),
                    message: String::from_str(DIAGNOSTIC_MESSAGE),
                },
            );
        },
        None => {},
    }
    out
}

} // verus!

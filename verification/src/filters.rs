//! Event model and classification.
//!
//! Upstream watch and process layers deliver events as a set of tags. The
//! engine only reads a small alphabet out of those tags, modelled here as a
//! closed sum type: a changed path, a file-change kind, a signal, or a
//! process-completion verdict. The classifiers below map one event's tag set
//! to the semantic facts the decision engine consumes, and the two filter
//! types decide which raw events reach the engine at all.

use vstd::prelude::*;

verus! {

/// The signals the engine distinguishes: the two stop signals, and the rest.
#[derive(Clone, Copy, Debug, PartialEq, Eq, Structural)]
pub enum Signal {
    Interrupt,
    Terminate,
    Other,
}

/// The file-change kinds the engine distinguishes: a data modification, a
/// file creation, and the rest.
#[derive(Clone, Copy, Debug, PartialEq, Eq, Structural)]
pub enum FileEventKind {
    ModifyData,
    Create,
    Other,
}

/// How a finished process ended: clean exit, exit with an error code, or any
/// other (abnormal) termination.
#[derive(Clone, Copy, Debug, PartialEq, Eq, Structural)]
pub enum ProcessEnd {
    Success,
    ExitError,
    Other,
}

/// One tag of an upstream event.
#[derive(Clone, Debug)]
pub enum Tag {
    /// A changed filesystem path.
    Path(String),
    /// The kind of a filesystem change.
    FileEventKind(FileEventKind),
    /// A delivered signal.
    Signal(Signal),
    /// A process-completion report; `None` when the completion carries no
    /// verdict.
    ProcessCompletion(Option<ProcessEnd>),
    /// Any tag the engine does not read.
    Other,
}

/// One upstream event: a set of tags.
#[derive(Clone, Debug)]
pub struct Event {
    pub tags: Vec<Tag>,
}

/// The extension of a path: the characters after the last `'.'`, or the whole
/// path when it holds no `'.'`.
pub open spec fn extension_of(s: Seq<char>) -> Seq<char>
    decreases s.len(),
{
    if s.len() == 0 {
        s
    } else if s[s.len() - 1] == '.' {
        Seq::empty()
    } else {
        extension_of(s.take(s.len() - 1)).push(s[s.len() - 1])
    }
}

/// The configured source-extension set: C/C++ sources and headers.
pub open spec fn is_source_extension(e: Seq<char>) -> bool {
    e == "c"@ || e == "h"@ || e == "cpp"@ || e == "hpp"@ || e == "cc"@ || e == "hh"@
}

pub open spec fn spec_is_stop_signal(s: Signal) -> bool {
    s is Interrupt || s is Terminate
}

pub open spec fn is_modification_tag(t: Tag) -> bool {
    match t {
        Tag::FileEventKind(k) => k is ModifyData || k is Create,
        _ => false,
    }
}

pub open spec fn is_relevant_path_tag(t: Tag) -> bool {
    match t {
        Tag::Path(p) => is_source_extension(extension_of(p@)),
        _ => false,
    }
}

impl Event {
    /// The event carries a process-completion tag.
    pub open spec fn has_process_report(self) -> bool {
        exists|i: int| 0 <= i < self.tags@.len() && (#[trigger] self.tags@[i]) is ProcessCompletion
    }

    /// The event carries a data-modification or file-creation tag.
    pub open spec fn has_file_modification(self) -> bool {
        exists|i: int| 0 <= i < self.tags@.len() && is_modification_tag(#[trigger] self.tags@[i])
    }

    /// The event carries a path whose extension is in the source set.
    pub open spec fn has_relevant_path(self) -> bool {
        exists|i: int| 0 <= i < self.tags@.len() && is_relevant_path_tag(#[trigger] self.tags@[i])
    }

    /// The event carries an interrupt or terminate signal.
    pub open spec fn has_stop_signal(self) -> bool {
        exists|i: int|
            0 <= i < self.tags@.len() && (#[trigger] self.tags@[i] matches Tag::Signal(s)
                && spec_is_stop_signal(s))
    }

    /// The event carries a path tag at all.
    pub open spec fn has_path(self) -> bool {
        exists|i: int| 0 <= i < self.tags@.len() && (#[trigger] self.tags@[i]) is Path
    }
}

pub fn is_stop_signal(signal: &Signal) -> (r: bool)
    ensures
        r == spec_is_stop_signal(*signal),
{
    match signal {
        Signal::Interrupt => true,
        Signal::Terminate => true,
        Signal::Other => false,
    }
}

pub fn is_process_report(event: &Event) -> (r: bool)
    ensures
        r == event.has_process_report(),
{
    let n = event.tags.len();
    let mut i: usize = 0;
    while i < n
        invariant
            i <= n,
            n == event.tags@.len(),
            forall|j: int| 0 <= j < i ==> !((#[trigger] event.tags@[j]) is ProcessCompletion),
        decreases n - i,
    {
        if matches!(&event.tags[i], Tag::ProcessCompletion(_)) {
            return true;
        }
        i += 1;
    }
    false
}

pub fn is_file_modification(event: &Event) -> (r: bool)
    ensures
        r == event.has_file_modification(),
{
    let n = event.tags.len();
    let mut i: usize = 0;
    while i < n
        invariant
            i <= n,
            n == event.tags@.len(),
            forall|j: int| 0 <= j < i ==> !is_modification_tag(#[trigger] event.tags@[j]),
        decreases n - i,
    {
        match &event.tags[i] {
            Tag::FileEventKind(FileEventKind::ModifyData) => {
                return true;
            },
            Tag::FileEventKind(FileEventKind::Create) => {
                return true;
            },
            _ => {},
        }
        i += 1;
    }
    false
}

/// Whether the suffix of `path` that starts at `start` equals `lit`.
fn suffix_matches(path: &str, start: usize, lit: &str) -> (r: bool)
    requires
        start <= path@.len(),
    ensures
        r == (path@.subrange(start as int, path@.len() as int) == lit@),
{
    let plen = path.unicode_len();
    let llen = lit.unicode_len();
    if plen - start != llen {
        assert(path@.subrange(start as int, plen as int).len() != lit@.len());
        return false;
    }
    let mut k: usize = 0;
    while k < llen
        invariant
            k <= llen,
            llen == lit@.len(),
            plen == path@.len(),
            start + llen == plen,
            forall|m: int| 0 <= m < k ==> path@[start + m] == lit@[m],
        decreases llen - k,
    {
        if path.get_char(start + k) != lit.get_char(k) {
            assert(path@.subrange(start as int, plen as int)[k as int] != lit@[k as int]);
            return false;
        }
        k += 1;
    }
    assert(path@.subrange(start as int, plen as int) =~= lit@);
    true
}

/// Whether the extension of `path` is in the configured source set.
fn path_has_source_extension(path: &str) -> (r: bool)
    ensures
        r == is_source_extension(extension_of(path@)),
{
    let len = path.unicode_len();
    proof {
        assert(path@.take(len as int) =~= path@);
        assert(extension_of(path@.take(len as int)) + path@.subrange(len as int, len as int)
            =~= extension_of(path@));
    }
    let mut j: usize = len;
    while j > 0 && path.get_char(j - 1) != '.'
        invariant
            j <= len,
            len == path@.len(),
            extension_of(path@) =~= extension_of(path@.take(j as int)) + path@.subrange(
                j as int,
                len as int,
            ),
        decreases j,
    {
        proof {
            let s = path@;
            let jj = j as int;
            assert(s.take(jj).take(jj - 1) =~= s.take(jj - 1));
            assert(s.take(jj)[jj - 1] == s[jj - 1]);
            assert(extension_of(s.take(jj)) == extension_of(s.take(jj - 1)).push(s[jj - 1]));
            assert(extension_of(s.take(jj - 1)) + s.subrange(jj - 1, len as int) =~= extension_of(
                s.take(jj),
            ) + s.subrange(jj, len as int));
        }
        j -= 1;
    }
    proof {
        let s = path@;
        let jj = j as int;
        if j == 0 {
            assert(s.take(0) =~= Seq::<char>::empty());
            assert(extension_of(s) =~= s.subrange(0, len as int));
        } else {
            assert(s.take(jj)[jj - 1] == s[jj - 1]);
            assert(extension_of(s.take(jj)) =~= Seq::<char>::empty());
            assert(extension_of(s) =~= s.subrange(jj, len as int));
        }
    }
    suffix_matches(path, j, "c") || suffix_matches(path, j, "h") || suffix_matches(path, j, "cpp")
        || suffix_matches(path, j, "hpp") || suffix_matches(path, j, "cc") || suffix_matches(
        path,
        j,
        "hh",
    )
}

pub fn is_cpp_file(event: &Event) -> (r: bool)
    ensures
        r == event.has_relevant_path(),
{
    let n = event.tags.len();
    let mut i: usize = 0;
    while i < n
        invariant
            i <= n,
            n == event.tags@.len(),
            forall|j: int| 0 <= j < i ==> !is_relevant_path_tag(#[trigger] event.tags@[j]),
        decreases n - i,
    {
        match &event.tags[i] {
            Tag::Path(path) => {
                if path_has_source_extension(path.as_str()) {
                    return true;
                }
            },
            _ => {},
        }
        i += 1;
    }
    false
}

/// Whether the event carries an interrupt or terminate signal.
pub fn event_has_stop_signal(event: &Event) -> (r: bool)
    ensures
        r == event.has_stop_signal(),
{
    let n = event.tags.len();
    let mut i: usize = 0;
    while i < n
        invariant
            i <= n,
            n == event.tags@.len(),
            forall|j: int|
                0 <= j < i ==> !(#[trigger] event.tags@[j] matches Tag::Signal(s)
                    && spec_is_stop_signal(s)),
        decreases n - i,
    {
        match &event.tags[i] {
            Tag::Signal(s) => {
                if is_stop_signal(s) {
                    return true;
                }
            },
            _ => {},
        }
        i += 1;
    }
    false
}

/// Whether the event carries any path tag.
pub fn event_has_path(event: &Event) -> (r: bool)
    ensures
        r == event.has_path(),
{
    let n = event.tags.len();
    let mut i: usize = 0;
    while i < n
        invariant
            i <= n,
            n == event.tags@.len(),
            forall|j: int| 0 <= j < i ==> !((#[trigger] event.tags@[j]) is Path),
        decreases n - i,
    {
        if matches!(&event.tags[i], Tag::Path(_)) {
            return true;
        }
        i += 1;
    }
    false
}

/// The engine-facing filter: an event passes when it reports a process
/// completion, or changes a file at a path with a source extension.
#[derive(Clone, Copy, Debug)]
pub struct ExtenstionsFilter;

/// A looser filter: any file modification passes, whatever its path.
#[derive(Clone, Copy, Debug)]
pub struct ModificationFilter;

impl ExtenstionsFilter {
    pub fn check_event(&self, event: &Event) -> (r: bool)
        ensures
            r == (event.has_process_report() || (event.has_file_modification()
                && event.has_relevant_path())),
    {
        is_process_report(event) || (is_file_modification(event) && is_cpp_file(event))
    }
}

impl ModificationFilter {
    pub fn check_event(&self, event: &Event) -> (r: bool)
        ensures
            r == (event.has_process_report() || event.has_file_modification()),
    {
        is_process_report(event) || is_file_modification(event)
    }
}

} // verus!

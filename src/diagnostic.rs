//! Diagnostics under the pointer: which one a popover shows, where a click on
//! it leads, and the text it shows.

use crate::text::TextBuf;
use std::ops::Range;
use vstd::prelude::*;

verus! {

/// How serious a diagnostic is.
#[derive(Clone, Copy, Debug, PartialEq, Eq, Structural)]
pub enum DiagnosticSeverity {
    Error,
    Warning,
    Information,
    Hint,
    Unknown,
}

/// A message that the language backend attached to a range of the document.
#[derive(Clone, Debug, PartialEq, Eq)]
pub struct Diagnostic {
    pub message: String,
    pub severity: DiagnosticSeverity,
    /// The tool that reported it.
    pub source: Option<String>,
    /// Related diagnostics share a group.
    pub group_id: usize,
    /// Whether this entry is the representative one of its group.
    pub is_primary: bool,
}

/// A diagnostic and the byte range of the document it covers.
#[derive(Debug, PartialEq, Eq)]
pub struct DiagnosticEntry {
    pub range: Range<usize>,
    pub diagnostic: Diagnostic,
}

/// The diagnostic popover: the entry under the pointer, and the primary entry
/// of its group, if there is one.
#[derive(Debug, PartialEq, Eq)]
pub struct DiagnosticPopover {
    pub local_diagnostic: DiagnosticEntry,
    pub primary_diagnostic: Option<DiagnosticEntry>,
}

/// The frame a diagnostic popover is drawn in.
#[derive(Clone, Copy, Debug, PartialEq, Eq, Structural)]
pub enum ContainerStyle {
    Info,
    Warning,
    Error,
    Plain,
}

/// What a diagnostic popover shows: its text, the byte range of the source
/// tag in it, and its frame.
#[derive(Debug)]
pub struct DiagnosticView {
    pub text: String,
    pub source_highlight: Option<Range<usize>>,
    pub container: ContainerStyle,
}

pub open spec fn covers(e: DiagnosticEntry, offset: usize) -> bool {
    e.range.start <= offset && offset <= e.range.end
}

pub open spec fn span_len(e: DiagnosticEntry) -> int {
    e.range.end - e.range.start
}

/// Among the entries that cover `offset`, the index of the first one with the
/// shortest range.
pub open spec fn most_specific(offset: usize, entries: Seq<DiagnosticEntry>) -> Option<int>
    decreases entries.len(),
{
    if entries.len() == 0 {
        None
    } else {
        let last = entries.len() - 1;
        let best = most_specific(offset, entries.drop_last());
        if !covers(entries[last], offset) {
            best
        } else {
            match best {
                Some(i) => if span_len(entries[i]) <= span_len(entries[last]) {
                    Some(i)
                } else {
                    Some(last)
                },
                None => Some(last),
            }
        }
    }
}

/// The index of the first primary entry of group `group_id`.
pub open spec fn primary_of(group_id: usize, entries: Seq<DiagnosticEntry>) -> Option<int>
    decreases entries.len(),
{
    if entries.len() == 0 {
        None
    } else {
        match primary_of(group_id, entries.drop_last()) {
            Some(i) => Some(i),
            None => {
                let e = entries[entries.len() - 1];
                if e.diagnostic.group_id == group_id && e.diagnostic.is_primary {
                    Some(entries.len() - 1)
                } else {
                    None
                }
            },
        }
    }
}

/// The popover for the diagnostics at `offset`, if any covers it.
pub open spec fn popover_at(offset: usize, entries: Seq<DiagnosticEntry>) -> Option<DiagnosticPopover> {
    match most_specific(offset, entries) {
        Some(i) => Some(
            DiagnosticPopover {
                local_diagnostic: entries[i],
                primary_diagnostic: match primary_of(entries[i].diagnostic.group_id, entries) {
                    Some(j) => Some(entries[j]),
                    None => None,
                },
            },
        ),
        None => None,
    }
}

/// The most specific choice is a covering entry, no covering entry is
/// shorter, and every earlier covering entry is longer.
pub proof fn lemma_most_specific(offset: usize, entries: Seq<DiagnosticEntry>)
    ensures
        most_specific(offset, entries) is None <==> (forall|j: int|
            0 <= j < entries.len() ==> !covers(#[trigger] entries[j], offset)),
        most_specific(offset, entries) matches Some(i) ==> {
            &&& 0 <= i < entries.len()
            &&& covers(entries[i], offset)
            &&& forall|j: int|
                0 <= j < entries.len() && covers(#[trigger] entries[j], offset) ==> span_len(entries[i])
                    <= span_len(entries[j])
            &&& forall|j: int|
                0 <= j < i && covers(#[trigger] entries[j], offset) ==> span_len(entries[i]) < span_len(
                    entries[j],
                )
        },
    decreases entries.len(),
{
    if entries.len() > 0 {
        let init = entries.drop_last();
        let last = entries.len() - 1;
        lemma_most_specific(offset, init);
        assert forall|j: int| 0 <= j < init.len() implies #[trigger] init[j] == entries[j] by {}
        if !covers(entries[last], offset) {
            assert forall|j: int| 0 <= j < entries.len() && covers(#[trigger] entries[j], offset) implies j
                < last by {}
            if let Some(b) = most_specific(offset, init) {
                assert(covers(init[b], offset));
                assert forall|j: int|
                    0 <= j < entries.len() && covers(#[trigger] entries[j], offset) implies span_len(entries[b])
                    <= span_len(entries[j]) by {
                    assert(covers(init[j], offset));
                }
                assert forall|j: int| 0 <= j < b && covers(#[trigger] entries[j], offset) implies span_len(
                    entries[b],
                ) < span_len(entries[j]) by {
                    assert(covers(init[j], offset));
                }
            }
            if most_specific(offset, init) is None {
                assert forall|j: int| 0 <= j < entries.len() implies !covers(#[trigger] entries[j], offset) by {
                    if j < last {
                        assert(!covers(init[j], offset));
                    }
                }
            }
        } else {
            assert(!(forall|j: int| 0 <= j < entries.len() ==> !covers(#[trigger] entries[j], offset)));
            match most_specific(offset, init) {
                Some(b) => {
                    assert(covers(init[b], offset));
                    if span_len(entries[b]) <= span_len(entries[last]) {
                        assert forall|j: int|
                            0 <= j < entries.len() && covers(#[trigger] entries[j], offset) implies span_len(
                            entries[b],
                        ) <= span_len(entries[j]) by {
                            if j < last {
                                assert(covers(init[j], offset));
                            }
                        }
                        assert forall|j: int| 0 <= j < b && covers(#[trigger] entries[j], offset) implies span_len(
                            entries[b],
                        ) < span_len(entries[j]) by {
                            assert(covers(init[j], offset));
                        }
                    } else {
                        assert forall|j: int|
                            0 <= j < entries.len() && covers(#[trigger] entries[j], offset) implies span_len(
                            entries[last],
                        ) <= span_len(entries[j]) by {
                            if j < last {
                                assert(covers(init[j], offset));
                            }
                        }
                        assert forall|j: int| 0 <= j < last && covers(#[trigger] entries[j], offset) implies span_len(
                            entries[last],
                        ) < span_len(entries[j]) by {
                            assert(covers(init[j], offset));
                        }
                    }
                },
                None => {
                    assert forall|j: int| 0 <= j < last implies !covers(#[trigger] entries[j], offset) by {
                        assert(!covers(init[j], offset));
                    }
                },
            }
        }
    }
}

fn copy_entry(e: &DiagnosticEntry) -> (r: DiagnosticEntry)
    ensures
        r == *e,
{
    DiagnosticEntry {
        range: Range { start: e.range.start, end: e.range.end },
        diagnostic: Diagnostic {
            message: e.diagnostic.message.clone(),
            severity: e.diagnostic.severity,
            source: match &e.diagnostic.source {
                Some(s) => Some(s.clone()),
                None => None,
            },
            group_id: e.diagnostic.group_id,
            is_primary: e.diagnostic.is_primary,
        },
    }
}

/// The index of the most specific diagnostic at `offset`: among the entries
/// whose range holds it, the first with the shortest range.
pub fn most_specific_diagnostic(offset: usize, entries: &Vec<DiagnosticEntry>) -> (r: Option<usize>)
    ensures
        r matches Some(i) ==> i < entries@.len() && most_specific(offset, entries@) == Some(i as int),
        r is None ==> most_specific(offset, entries@) is None,
{
    let mut best: Option<usize> = None;
    let mut i: usize = 0;
    while i < entries.len()
        invariant
            i <= entries@.len(),
            best matches Some(b) ==> b < i && covers(entries@[b as int], offset) && most_specific(offset, entries@.subrange(0, i as int))
                == Some(b as int),
            best is None ==> most_specific(offset, entries@.subrange(0, i as int)) is None,
        decreases entries@.len() - i,
    {
        let ghost sub = entries@.subrange(0, i as int + 1);
        assert(sub.drop_last() =~= entries@.subrange(0, i as int));
        let e = &entries[i];
        if e.range.start <= offset && offset <= e.range.end {
            match best {
                Some(b) => {
                    let eb = &entries[b];
                    if eb.range.end - eb.range.start > e.range.end - e.range.start {
                        best = Some(i);
                    }
                },
                None => {
                    best = Some(i);
                },
            }
        }
        i = i + 1;
    }
    assert(entries@.subrange(0, i as int) =~= entries@);
    best
}

/// The index of the first primary entry of group `group_id`.
pub fn primary_diagnostic(group_id: usize, entries: &Vec<DiagnosticEntry>) -> (r: Option<usize>)
    ensures
        r matches Some(i) ==> i < entries@.len() && primary_of(group_id, entries@) == Some(i as int),
        r is None ==> primary_of(group_id, entries@) is None,
{
    let mut i: usize = 0;
    while i < entries.len()
        invariant
            i <= entries@.len(),
            primary_of(group_id, entries@.subrange(0, i as int)) is None,
        decreases entries@.len() - i,
    {
        let ghost sub = entries@.subrange(0, i as int + 1);
        assert(sub.drop_last() =~= entries@.subrange(0, i as int));
        if entries[i].diagnostic.group_id == group_id && entries[i].diagnostic.is_primary {
            proof {
                lemma_primary_prefix(group_id, entries@, i as int);
            }
            return Some(i);
        }
        i = i + 1;
    }
    assert(entries@.subrange(0, i as int) =~= entries@);
    None
}

/// Once a prefix holds the first primary entry, the whole sequence does.
proof fn lemma_primary_prefix(group_id: usize, entries: Seq<DiagnosticEntry>, i: int)
    requires
        0 <= i < entries.len(),
        primary_of(group_id, entries.subrange(0, i + 1)) == Some(i),
    ensures
        primary_of(group_id, entries) == Some(i),
    decreases entries.len(),
{
    if entries.len() > i + 1 {
        let init = entries.drop_last();
        assert(init.subrange(0, i + 1) =~= entries.subrange(0, i + 1));
        lemma_primary_prefix(group_id, init, i);
    } else {
        assert(entries.subrange(0, i + 1) =~= entries);
    }
}

/// The diagnostic popover for `offset`: the most specific diagnostic there,
/// with the primary entry of its group; `None` where no diagnostic covers it.
pub fn diagnostic_popover_at(offset: usize, entries: &Vec<DiagnosticEntry>) -> (r: Option<DiagnosticPopover>)
    ensures
        r == popover_at(offset, entries@),
{
    match most_specific_diagnostic(offset, entries) {
        Some(i) => {
            let local = copy_entry(&entries[i]);
            let primary = match primary_diagnostic(entries[i].diagnostic.group_id, entries) {
                Some(j) => Some(copy_entry(&entries[j])),
                None => None,
            };
            Some(DiagnosticPopover { local_diagnostic: local, primary_diagnostic: primary })
        },
        None => None,
    }
}

pub open spec fn container_for(severity: DiagnosticSeverity) -> ContainerStyle {
    match severity {
        DiagnosticSeverity::Hint => ContainerStyle::Info,
        DiagnosticSeverity::Information => ContainerStyle::Info,
        DiagnosticSeverity::Warning => ContainerStyle::Warning,
        DiagnosticSeverity::Error => ContainerStyle::Error,
        DiagnosticSeverity::Unknown => ContainerStyle::Plain,
    }
}

impl DiagnosticPopover {
    /// The entry that a click leads to: the primary one of the group where
    /// known, else the one under the pointer.
    pub open spec fn target(&self) -> DiagnosticEntry {
        match self.primary_diagnostic {
            Some(p) => p,
            None => self.local_diagnostic,
        }
    }

    /// The group and document offset that a click on the popover leads to.
    pub fn activation_info(&self) -> (r: (usize, usize))
        ensures
            r == (self.target().diagnostic.group_id, self.target().range.start),
    {
        let entry = match &self.primary_diagnostic {
            Some(p) => p,
            None => &self.local_diagnostic,
        };
        (entry.diagnostic.group_id, entry.range.start)
    }

    /// The popover's content: `"<source>: <message>"` with the source tag
    /// highlighted, or the bare message; framed by severity.
    pub fn render(&self) -> (r: DiagnosticView)
        ensures
            r.container == container_for(self.local_diagnostic.diagnostic.severity),
            match self.local_diagnostic.diagnostic.source {
                Some(src) => r.text@ == src@ + seq![':', ' '] + self.local_diagnostic.diagnostic.message@
                    && r.source_highlight == Some(Range { start: 0usize, end: crate::text::byte_len(src@) as usize }),
                None => r.text@ == self.local_diagnostic.diagnostic.message@ && r.source_highlight is None,
            },
    {
        let d = &self.local_diagnostic.diagnostic;
        let container = match d.severity {
            DiagnosticSeverity::Hint => ContainerStyle::Info,
            DiagnosticSeverity::Information => ContainerStyle::Info,
            DiagnosticSeverity::Warning => ContainerStyle::Warning,
            DiagnosticSeverity::Error => ContainerStyle::Error,
            DiagnosticSeverity::Unknown => ContainerStyle::Plain,
        };
        let mut text = TextBuf::new();
        match &d.source {
            Some(src) => {
                text.push_str(src.as_str());
                let source_len = text.len();
                text.push_ascii(':');
                text.push_ascii(' ');
                text.push_str(d.message.as_str());
                assert(text.chars@ =~= src@ + seq![':', ' '] + d.message@);
                DiagnosticView {
                    text: text.into_string(),
                    source_highlight: Some(Range { start: 0, end: source_len }),
                    container,
                }
            },
            None => {
                text.push_str(d.message.as_str());
                assert(text.chars@ =~= d.message@);
                DiagnosticView { text: text.into_string(), source_highlight: None, container }
            },
        }
    }
}

} // verus!

//! The editor-facing diagnostic model that the translation produces:
//! zero-based half-open ranges, severities, tags, related information
//! and quick-fix code actions.  Each type with owned text has a view
//! onto a mathematical model over sequences of characters.

use vstd::prelude::*;

verus! {

#[derive(Clone, Copy, Debug, PartialEq, Eq, Structural)]
pub struct Position {
    /// Zero-based.
    pub line: u64,
    /// Zero-based.
    pub character: u64,
}

#[derive(Clone, Copy, Debug, PartialEq, Eq, Structural)]
pub struct Range {
    pub start: Position,
    pub end: Position,
}

#[derive(Clone, Copy, Debug, PartialEq, Eq, Structural)]
pub enum DiagnosticSeverity {
    Error,
    Warning,
    Information,
    Hint,
}

#[derive(Clone, Copy, Debug, PartialEq, Eq, Structural)]
pub enum DiagnosticTag {
    Unnecessary,
    Deprecated,
}

#[derive(Debug)]
pub struct Location {
    /// A file reference, as produced by the URI normalizer.
    pub uri: String,
    pub range: Range,
}

#[verifier::ext_equal]
pub struct LocationV {
    pub uri: Seq<char>,
    pub range: Range,
}

impl View for Location {
    type V = LocationV;

    open spec fn view(&self) -> LocationV {
        LocationV { uri: self.uri@, range: self.range }
    }
}

impl Clone for Location {
    fn clone(&self) -> (r: Self)
        ensures
            r@ == self@,
    {
        Location { uri: self.uri.clone(), range: self.range }
    }
}

#[derive(Debug)]
pub struct DiagnosticRelatedInformation {
    pub location: Location,
    pub message: String,
}

#[verifier::ext_equal]
pub struct DiagnosticRelatedInformationV {
    pub location: LocationV,
    pub message: Seq<char>,
}

impl View for DiagnosticRelatedInformation {
    type V = DiagnosticRelatedInformationV;

    open spec fn view(&self) -> DiagnosticRelatedInformationV {
        DiagnosticRelatedInformationV { location: self.location@, message: self.message@ }
    }
}

impl Clone for DiagnosticRelatedInformation {
    fn clone(&self) -> (r: Self)
        ensures
            r@ == self@,
    {
        DiagnosticRelatedInformation {
            location: self.location.clone(),
            message: self.message.clone(),
        }
    }
}

#[derive(Debug)]
pub struct TextEdit {
    pub range: Range,
    pub new_text: String,
}

#[verifier::ext_equal]
pub struct TextEditV {
    pub range: Range,
    pub new_text: Seq<char>,
}

impl View for TextEdit {
    type V = TextEditV;

    open spec fn view(&self) -> TextEditV {
        TextEditV { range: self.range, new_text: self.new_text@ }
    }
}

impl Clone for TextEdit {
    fn clone(&self) -> (r: Self)
        ensures
            r@ == self@,
    {
        TextEdit { range: self.range, new_text: self.new_text.clone() }
    }
}

/// The text replacements of one code action that fall in one file,
/// in encounter order.
#[derive(Debug)]
pub struct FileChanges {
    pub uri: String,
    pub edits: Vec<TextEdit>,
}

#[verifier::ext_equal]
pub struct FileChangesV {
    pub uri: Seq<char>,
    pub edits: Seq<TextEditV>,
}

impl View for FileChanges {
    type V = FileChangesV;

    open spec fn view(&self) -> FileChangesV {
        FileChangesV { uri: self.uri@, edits: self.edits@.map_values(|e: TextEdit| e@) }
    }
}

impl Clone for FileChanges {
    fn clone(&self) -> (r: Self)
        ensures
            r@ == self@,
    {
        let mut edits: Vec<TextEdit> = Vec::new();
        let mut i: usize = 0;
        while i < self.edits.len()
            invariant
                i <= self.edits.len(),
                edits@.len() == i as int,
                forall|j: int| 0 <= j < i ==> (#[trigger] edits@[j])@ == self.edits@[j]@,
            decreases self.edits.len() - i,
        {
            edits.push(self.edits[i].clone());
            i = i + 1;
        }
        let r = FileChanges { uri: self.uri.clone(), edits };
        proof {
            assert(r@.edits =~= self@.edits);
        }
        r
    }
}

/// A quick-fix code action: a title and, per file, an ordered list of
/// text replacements.
#[derive(Debug)]
pub struct CodeAction {
    pub title: String,
    pub kind: String,
    pub changes: Vec<FileChanges>,
}

#[verifier::ext_equal]
pub struct CodeActionV {
    pub title: Seq<char>,
    pub kind: Seq<char>,
    pub changes: Seq<FileChangesV>,
}

impl View for CodeAction {
    type V = CodeActionV;

    open spec fn view(&self) -> CodeActionV {
        CodeActionV {
            title: self.title@,
            kind: self.kind@,
            changes: self.changes@.map_values(|c: FileChanges| c@),
        }
    }
}

impl Clone for CodeAction {
    fn clone(&self) -> (r: Self)
        ensures
            r@ == self@,
    {
        let mut changes: Vec<FileChanges> = Vec::new();
        let mut i: usize = 0;
        while i < self.changes.len()
            invariant
                i <= self.changes.len(),
                changes@.len() == i as int,
                forall|j: int| 0 <= j < i ==> (#[trigger] changes@[j])@ == self.changes@[j]@,
            decreases self.changes.len() - i,
        {
            changes.push(self.changes[i].clone());
            i = i + 1;
        }
        let r = CodeAction { title: self.title.clone(), kind: self.kind.clone(), changes };
        proof {
            assert(r@.changes =~= self@.changes);
        }
        r
    }
}

/// One translated diagnostic.  `related_information` and `tags` are
/// `None`, never empty lists, when there is nothing to report.
#[derive(Debug)]
pub struct Diagnostic {
    pub range: Range,
    pub severity: Option<DiagnosticSeverity>,
    pub code: Option<String>,
    pub source: Option<String>,
    pub message: String,
    pub related_information: Option<Vec<DiagnosticRelatedInformation>>,
    pub tags: Option<Vec<DiagnosticTag>>,
}

#[verifier::ext_equal]
pub struct DiagnosticV {
    pub range: Range,
    pub severity: Option<DiagnosticSeverity>,
    pub code: Option<Seq<char>>,
    pub source: Option<Seq<char>>,
    pub message: Seq<char>,
    pub related_information: Option<Seq<DiagnosticRelatedInformationV>>,
    pub tags: Option<Seq<DiagnosticTag>>,
}

impl View for Diagnostic {
    type V = DiagnosticV;

    open spec fn view(&self) -> DiagnosticV {
        DiagnosticV {
            range: self.range,
            severity: self.severity,
            code: match self.code {
                Some(ref c) => Some(c@),
                None => None,
            },
            source: match self.source {
                Some(ref s) => Some(s@),
                None => None,
            },
            message: self.message@,
            related_information: match self.related_information {
                Some(ref v) => Some(v@.map_values(|r: DiagnosticRelatedInformation| r@)),
                None => None,
            },
            tags: match self.tags {
                Some(ref v) => Some(v@),
                None => None,
            },
        }
    }
}

} // verus!

//! The decisions of the `openbim-dt` command-line tool: which command the
//! arguments ask for, the lines `inspect` and `validate` report, the exit
//! status of `validate`, and the random token that names a temporary output
//! file. Reading files, printing and writing stay with the program.

use vstd::prelude::*;
use crate::codec::{decimal, decimal_text};
use crate::document::Document;
use crate::model::{
    children_of, document_findings, is_dt, kind_of, spec_root_kind, views, Diagnostic, DiagnosticCode,
    DiagnosticModel, ElementKind, LibraryItem, Severity,
};
use crate::text::push_char;

verus! {

/// What the arguments ask the tool to do.
#[derive(Debug, PartialEq, Eq)]
pub enum Command {
    Inspect { input: String },
    Validate { input: String },
    Rewrite { input: String, output: String },
    /// Anything else: print the usage text.
    Usage,
}

/// The exit status for arguments the tool does not understand.
pub const USAGE_EXIT_CODE: u8 = 64;

/// Reads the command from the arguments after the program name:
/// `inspect <input>`, `validate <input>` or `rewrite <input> <output>`.
pub fn parse_command(arguments: &Vec<String>) -> (r: Command)
    ensures
        match r {
            Command::Inspect { input } => arguments@.len() == 2 && arguments@[0]@ == "inspect"@ && input@
                == arguments@[1]@,
            Command::Validate { input } => arguments@.len() == 2 && arguments@[0]@ == "validate"@ && input@
                == arguments@[1]@,
            Command::Rewrite { input, output } => arguments@.len() == 3 && arguments@[0]@ == "rewrite"@
                && input@ == arguments@[1]@ && output@ == arguments@[2]@,
            Command::Usage => !(arguments@.len() == 2 && (arguments@[0]@ == "inspect"@ || arguments@[0]@
                == "validate"@)) && !(arguments@.len() == 3 && arguments@[0]@ == "rewrite"@),
        },
{
    if arguments.len() == 2 && crate::text::str_eq(arguments[0].as_str(), "inspect") {
        Command::Inspect { input: arguments[1].clone() }
    } else if arguments.len() == 2 && crate::text::str_eq(arguments[0].as_str(), "validate") {
        Command::Validate { input: arguments[1].clone() }
    } else if arguments.len() == 3 && crate::text::str_eq(arguments[0].as_str(), "rewrite") {
        Command::Rewrite { input: arguments[1].clone(), output: arguments[2].clone() }
    } else {
        Command::Usage
    }
}

/// The number of findings of severity `s`.
pub open spec fn severity_count(d: Seq<DiagnosticModel>, s: Severity) -> nat
    decreases d.len(),
{
    if d.len() == 0 {
        0
    } else {
        severity_count(d.drop_last(), s) + if d.last().severity == s {
            1nat
        } else {
            0nat
        }
    }
}

proof fn lemma_severity_counts_bounded(d: Seq<DiagnosticModel>)
    ensures
        severity_count(d, Severity::Error) + severity_count(d, Severity::Warning) == d.len(),
    decreases d.len(),
{
    if d.len() > 0 {
        lemma_severity_counts_bounded(d.drop_last());
    }
}

/// The number of errors and of warnings among `diagnostics`.
pub fn count_severities(diagnostics: &Vec<Diagnostic>) -> (r: (usize, usize))
    ensures
        r.0 == severity_count(views(diagnostics@), Severity::Error),
        r.1 == severity_count(views(diagnostics@), Severity::Warning),
{
    let mut errors: usize = 0;
    let mut warnings: usize = 0;
    let mut i: usize = 0;
    while i < diagnostics.len()
        invariant
            i <= diagnostics@.len(),
            errors == severity_count(views(diagnostics@.take(i as int)), Severity::Error),
            warnings == severity_count(views(diagnostics@.take(i as int)), Severity::Warning),
        decreases diagnostics.len() - i,
    {
        proof {
            assert(views(diagnostics@.take(i + 1)).drop_last() =~= views(diagnostics@.take(i as int)));
            lemma_severity_counts_bounded(views(diagnostics@.take(i as int)));
        }
        match diagnostics[i].severity {
            Severity::Error => {
                errors = errors + 1;
            },
            Severity::Warning => {
                warnings = warnings + 1;
            },
        }
        i = i + 1;
    }
    assert(diagnostics@.take(diagnostics@.len() as int) =~= diagnostics@);
    (errors, warnings)
}

/// The number of errors and of warnings that [`Document::validate`] finds.
pub fn diagnostic_counts(document: &Document) -> (r: (usize, usize))
    ensures
        r.0 == severity_count(document_findings(document.spec_root()), Severity::Error),
        r.1 == severity_count(document_findings(document.spec_root()), Severity::Warning),
{
    let diagnostics = document.validate();
    count_severities(&diagnostics)
}

/// The exit status of `validate`: success without errors, 2 with.
pub fn validate_exit_code(errors: usize) -> (r: u8)
    ensures
        r == (if errors == 0 {
            0u8
        } else {
            2u8
        }),
{
    if errors == 0 {
        0
    } else {
        2
    }
}

pub open spec fn kind_text(kind: ElementKind) -> Seq<char> {
    match kind {
        ElementKind::Library => "Library"@,
        ElementKind::Subject => "Subject"@,
        ElementKind::DataTemplate => "DataTemplate"@,
        ElementKind::ObjectType => "ObjectType"@,
        ElementKind::GroupOfProperties => "GroupOfProperties"@,
        ElementKind::Property => "Property"@,
        ElementKind::Unit => "Unit"@,
        ElementKind::Dimension => "Dimension"@,
        ElementKind::QuantityKind => "QuantityKind"@,
        ElementKind::ReferenceDocument => "ReferenceDocument"@,
    }
}

/// The name of an element kind as `inspect` prints it.
pub fn kind_label(kind: ElementKind) -> (r: &'static str)
    ensures
        r@ == kind_text(kind),
{
    match kind {
        ElementKind::Library => "Library",
        ElementKind::Subject => "Subject",
        ElementKind::DataTemplate => "DataTemplate",
        ElementKind::ObjectType => "ObjectType",
        ElementKind::GroupOfProperties => "GroupOfProperties",
        ElementKind::Property => "Property",
        ElementKind::Unit => "Unit",
        ElementKind::Dimension => "Dimension",
        ElementKind::QuantityKind => "QuantityKind",
        ElementKind::ReferenceDocument => "ReferenceDocument",
    }
}

pub open spec fn severity_text(s: Severity) -> Seq<char> {
    match s {
        Severity::Error => "Error"@,
        Severity::Warning => "Warning"@,
    }
}

pub fn severity_label(s: Severity) -> (r: &'static str)
    ensures
        r@ == severity_text(s),
{
    match s {
        Severity::Error => "Error",
        Severity::Warning => "Warning",
    }
}

pub open spec fn code_text(c: DiagnosticCode) -> Seq<char> {
    match c {
        DiagnosticCode::DraftNamespace => "DraftNamespace"@,
        DiagnosticCode::WrongRootNamespace => "WrongRootNamespace"@,
        DiagnosticCode::UnknownRootElement => "UnknownRootElement"@,
        DiagnosticCode::MissingGuid => "MissingGuid"@,
        DiagnosticCode::InvalidGuid => "InvalidGuid"@,
        DiagnosticCode::InvalidUri => "InvalidUri"@,
        DiagnosticCode::DuplicateGuid => "DuplicateGuid"@,
        DiagnosticCode::MissingCreationDate => "MissingCreationDate"@,
        DiagnosticCode::InvalidCreationDate => "InvalidCreationDate"@,
        DiagnosticCode::MissingName => "MissingName"@,
        DiagnosticCode::MissingDefinition => "MissingDefinition"@,
        DiagnosticCode::DuplicateDefinition => "DuplicateDefinition"@,
        DiagnosticCode::EmptyReference => "EmptyReference"@,
        DiagnosticCode::MissingLanguage => "MissingLanguage"@,
        DiagnosticCode::InvalidLanguage => "InvalidLanguage"@,
        DiagnosticCode::MissingDataTypeName => "MissingDataTypeName"@,
        DiagnosticCode::UnknownDataType => "UnknownDataType"@,
    }
}

pub fn code_label(c: DiagnosticCode) -> (r: &'static str)
    ensures
        r@ == code_text(c),
{
    match c {
        DiagnosticCode::DraftNamespace => "DraftNamespace",
        DiagnosticCode::WrongRootNamespace => "WrongRootNamespace",
        DiagnosticCode::UnknownRootElement => "UnknownRootElement",
        DiagnosticCode::MissingGuid => "MissingGuid",
        DiagnosticCode::InvalidGuid => "InvalidGuid",
        DiagnosticCode::InvalidUri => "InvalidUri",
        DiagnosticCode::DuplicateGuid => "DuplicateGuid",
        DiagnosticCode::MissingCreationDate => "MissingCreationDate",
        DiagnosticCode::InvalidCreationDate => "InvalidCreationDate",
        DiagnosticCode::MissingName => "MissingName",
        DiagnosticCode::MissingDefinition => "MissingDefinition",
        DiagnosticCode::DuplicateDefinition => "DuplicateDefinition",
        DiagnosticCode::EmptyReference => "EmptyReference",
        DiagnosticCode::MissingLanguage => "MissingLanguage",
        DiagnosticCode::InvalidLanguage => "InvalidLanguage",
        DiagnosticCode::MissingDataTypeName => "MissingDataTypeName",
        DiagnosticCode::UnknownDataType => "UnknownDataType",
    }
}

/// Whether a library child is retained as an extension rather than
/// classified as a name or a recognized item kind.
pub open spec fn is_extension_child(e: crate::document::Element) -> bool {
    !is_dt(e, "Name"@) && match kind_of(e) {
        Some(ElementKind::DataTemplate) => false,
        Some(ElementKind::ObjectType) => false,
        Some(ElementKind::GroupOfProperties) => false,
        Some(ElementKind::Property) => false,
        Some(ElementKind::Unit) => false,
        Some(ElementKind::Dimension) => false,
        Some(ElementKind::QuantityKind) => false,
        Some(ElementKind::ReferenceDocument) => false,
        _ => true,
    }
}

/// The number of extension children.
pub open spec fn extension_count(kids: Seq<crate::document::Element>) -> nat
    decreases kids.len(),
{
    if kids.len() == 0 {
        0
    } else {
        extension_count(kids.drop_last()) + if is_extension_child(kids.last()) {
            1nat
        } else {
            0nat
        }
    }
}

/// `label` followed by `=` and the decimal digits of `n`.
pub open spec fn count_line(label: Seq<char>, n: nat) -> Seq<char> {
    label + "="@ + decimal_text(n)
}

/// What `inspect` prints for a document with this root: the root kind, the
/// library's item and extension counts when the root is a library, and the
/// error and warning counts of validation.
pub open spec fn inspect_text(root: crate::document::Element) -> Seq<Seq<char>> {
    let findings = document_findings(root);
    let kind_line = "root="@ + match spec_root_kind(root) {
        Some(k) => kind_text(k),
        None => "Unknown"@,
    };
    let library_lines = if spec_root_kind(root) == Some(ElementKind::Library) {
        seq![
            count_line("items"@, children_of(root).len()),
            count_line("extensions"@, extension_count(children_of(root))),
        ]
    } else {
        Seq::empty()
    };
    seq![kind_line] + library_lines + seq![
        count_line("errors"@, severity_count(findings, Severity::Error)),
        count_line("warnings"@, severity_count(findings, Severity::Warning)),
    ]
}

fn count_text(label: &str, n: usize) -> (r: String)
    ensures
        r@ == count_line(label@, n as nat),
{
    let mut line = String::from_str(label);
    push_char(&mut line, '=');
    let digits = decimal(n);
    line.append(digits.as_str());
    proof {
        reveal_strlit("=");
        assert(line@ =~= label@ + "="@ + decimal_text(n as nat));
    }
    line
}

/// The lines `inspect` prints.
pub fn inspect_report(document: &Document) -> (r: Vec<String>)
    ensures
        r@.map_values(|s: String| s@) == inspect_text(document.spec_root()),
{
    let root = document.root();
    let mut lines: Vec<String> = Vec::new();
    let mut first = String::from_str("root=");
    match document.root_kind() {
        Some(kind) => first.append(kind_label(kind)),
        None => first.append("Unknown"),
    }
    lines.push(first);
    if let Some(library) = document.library() {
        let items = library.items();
        let mut extensions: usize = 0;
        let mut i: usize = 0;
        let ghost kids = children_of(document.spec_root());
        while i < items.len()
            invariant
                i <= items@.len(),
                items@.len() == kids.len(),
                forall|k: int| 0 <= k < items@.len() ==> crate::model::item_matches(#[trigger] items@[k], kids[k]),
                extensions == extension_count(kids.take(i as int)),
                extensions <= i,
            decreases items.len() - i,
        {
            assert(kids.take(i + 1).drop_last() =~= kids.take(i as int));
            assert(kids.take(i + 1).last() == kids[i as int]);
            assert(crate::model::item_matches(items@[i as int], kids[i as int]));
            if let LibraryItem::Extension(_) = items[i] {
                extensions = extensions + 1;
            }
            i = i + 1;
        }
        assert(kids.take(kids.len() as int) =~= kids);
        lines.push(count_text("items", items.len()));
        lines.push(count_text("extensions", extensions));
    }
    let (errors, warnings) = diagnostic_counts(document);
    lines.push(count_text("errors", errors));
    lines.push(count_text("warnings", warnings));
    proof {
        reveal_strlit("root=");
        reveal_strlit("Unknown");
    }
    assert(lines@.map_values(|s: String| s@) =~= inspect_text(document.spec_root()));
    lines
}

/// How `validate` prints one finding: severity, code, path and message.
pub open spec fn finding_line(d: DiagnosticModel) -> Seq<char> {
    severity_text(d.severity) + " "@ + code_text(d.code) + " "@ + d.path + ": "@ + d.message
}

/// What `validate` prints: each finding, then the error and warning counts.
pub open spec fn validate_text(root: crate::document::Element) -> Seq<Seq<char>> {
    let findings = document_findings(root);
    findings.map_values(|d: DiagnosticModel| finding_line(d)) + seq![
        count_line("errors"@, severity_count(findings, Severity::Error)),
        count_line("warnings"@, severity_count(findings, Severity::Warning)),
    ]
}

fn finding_text(d: &Diagnostic) -> (r: String)
    ensures
        r@ == finding_line(d@),
{
    let mut line = String::from_str(severity_label(d.severity));
    line.append(" ");
    line.append(code_label(d.code));
    line.append(" ");
    line.append(d.path.as_str());
    line.append(": ");
    line.append(d.message.as_str());
    line
}

/// The lines `validate` prints, and the number of errors among them.
pub fn validate_report(document: &Document) -> (r: (Vec<String>, usize))
    ensures
        r.0@.map_values(|s: String| s@) == validate_text(document.spec_root()),
        r.1 == severity_count(document_findings(document.spec_root()), Severity::Error),
{
    let diagnostics = document.validate();
    let mut lines: Vec<String> = Vec::new();
    let mut i: usize = 0;
    while i < diagnostics.len()
        invariant
            i <= diagnostics@.len(),
            lines@.map_values(|s: String| s@) == views(diagnostics@).take(i as int).map_values(
                |d: DiagnosticModel| finding_line(d),
            ),
        decreases diagnostics.len() - i,
    {
        let line = finding_text(&diagnostics[i]);
        let ghost before = lines@;
        lines.push(line);
        proof {
            let target = views(diagnostics@).take(i + 1).map_values(|d: DiagnosticModel| finding_line(d));
            let prior = views(diagnostics@).take(i as int).map_values(|d: DiagnosticModel| finding_line(d));
            assert(views(diagnostics@)[i as int] == diagnostics@[i as int]@);
            assert(before.map_values(|s: String| s@).len() == before.len());
            assert(prior.len() == i);
            assert(before.len() == i);
            assert(lines@.len() == i + 1);
            let now = lines@.map_values(|s: String| s@);
            assert forall|k: int| 0 <= k < i + 1 implies #[trigger] now[k] == target[k] by {
                if k < i {
                    assert(lines@[k] == before[k]);
                    assert(before.map_values(|s: String| s@)[k] == prior[k]);
                }
            }
            assert(now =~= target);
        }
        i = i + 1;
    }
    let (errors, warnings) = count_severities(&diagnostics);
    lines.push(count_text("errors", errors));
    lines.push(count_text("warnings", warnings));
    assert(views(diagnostics@).take(diagnostics@.len() as int) =~= views(diagnostics@));
    assert(lines@.map_values(|s: String| s@) =~= validate_text(document.spec_root()));
    (lines, errors)
}

pub open spec fn hex_digit(n: int) -> char {
    if n < 10 {
        (('0' as int) + n) as char
    } else {
        (('a' as int) + n - 10) as char
    }
}

/// Each byte as two lower-case hexadecimal digits.
pub open spec fn hex_text(bytes: Seq<u8>) -> Seq<char>
    decreases bytes.len(),
{
    if bytes.len() == 0 {
        Seq::empty()
    } else {
        hex_text(bytes.drop_last()) + seq![hex_digit(bytes.last() as int / 16), hex_digit(bytes.last() as int % 16)]
    }
}

fn hex_char(n: u8) -> (r: char)
    requires
        n < 16,
    ensures
        r == hex_digit(n as int),
{
    if n < 10 {
        (('0' as u8) + n) as char
    } else {
        (('a' as u8) + n - 10) as char
    }
}

/// The random bytes as the token of a temporary file name.
pub fn hex_token(random: &[u8]) -> (r: String)
    ensures
        r@ == hex_text(random@),
{
    let mut token = String::new();
    let mut i: usize = 0;
    while i < random.len()
        invariant
            i <= random@.len(),
            token@ == hex_text(random@.take(i as int)),
        decreases random.len() - i,
    {
        let byte = random[i];
        push_char(&mut token, hex_char(byte / 16));
        push_char(&mut token, hex_char(byte % 16));
        assert(random@.take(i + 1).drop_last() =~= random@.take(i as int));
        assert(random@.take(i + 1).last() == byte);
        i = i + 1;
    }
    assert(random@.take(random@.len() as int) =~= random@);
    token
}

} // verus!

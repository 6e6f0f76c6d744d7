//! The faults that an analysis reports.

use crate::metadata::{texts_view, Platform, PlatformView};
use crate::text::{join_texts, joined};
use vstd::prelude::*;
use vstd::string::*;

verus! {

/// One problem found in a batch of records.
#[derive(Debug, Clone, PartialEq, Eq)]
pub enum DependencyError {
    /// An ecosystem that is not resolved, with the files of its records.
    UnsupportedPlatform(Platform, Vec<String>),
    /// Source id, source file, and the mandatory target id that is absent.
    MissingDependency(String, String, String),
    /// Source file, target id, required range text, found version, found file.
    VersionConflict(String, String, String, String, String),
    /// The id chain of a cycle, ending with the repeated id.
    CircularDependency(Vec<String>),
    /// Id, file, and the text that is not a valid version or range.
    InvalidVersionFormat(String, String, String),
}

pub enum FaultView {
    UnsupportedPlatform(PlatformView, Seq<Seq<char>>),
    MissingDependency(Seq<char>, Seq<char>, Seq<char>),
    VersionConflict(Seq<char>, Seq<char>, Seq<char>, Seq<char>, Seq<char>),
    CircularDependency(Seq<Seq<char>>),
    InvalidVersionFormat(Seq<char>, Seq<char>, Seq<char>),
}

impl View for DependencyError {
    type V = FaultView;

    open spec fn view(&self) -> FaultView {
        match self {
            DependencyError::UnsupportedPlatform(p, files) => FaultView::UnsupportedPlatform(
                p@,
                texts_view(files@),
            ),
            DependencyError::MissingDependency(a, b, c) => FaultView::MissingDependency(
                a@,
                b@,
                c@,
            ),
            DependencyError::VersionConflict(a, b, c, d, e) => FaultView::VersionConflict(
                a@,
                b@,
                c@,
                d@,
                e@,
            ),
            DependencyError::CircularDependency(chain) => FaultView::CircularDependency(
                texts_view(chain@),
            ),
            DependencyError::InvalidVersionFormat(a, b, c) => FaultView::InvalidVersionFormat(
                a@,
                b@,
                c@,
            ),
        }
    }
}

pub open spec fn faults_view(v: Seq<DependencyError>) -> Seq<FaultView> {
    v.map_values(|e: DependencyError| e@)
}

/// Every fault of an analysis, in the order found.
#[derive(Debug, Clone, PartialEq, Eq)]
pub struct DependencyErrors(pub Vec<DependencyError>);

impl View for DependencyErrors {
    type V = Seq<FaultView>;

    open spec fn view(&self) -> Seq<FaultView> {
        faults_view(self.0@)
    }
}

/// The quoted, escaped form that `Debug` gives the text `s`.
pub uninterp spec fn debug_quoted(s: Seq<char>) -> Seq<char>;

/// Relies on `Debug for str`: the quoted form depends on the characters alone.
#[verifier::external_body]
fn debug_text(s: &str) -> (r: String)
    ensures
        r@ == debug_quoted(s@),
{
    format!("{:?}", s)
}

/// How a report shows an ecosystem tag.
pub open spec fn platform_text(p: PlatformView) -> Seq<char> {
    match p {
        PlatformView::Forge => "Forge"@,
        PlatformView::Fabric => "Fabric"@,
        PlatformView::NeoForge => "NeoForge"@,
        PlatformView::Quilt => "Quilt"@,
        PlatformView::Unknown(name) => "Unknown("@ + debug_quoted(name) + ")"@,
    }
}

/// How a report shows a list of file names.
pub open spec fn list_text(v: Seq<Seq<char>>) -> Seq<char> {
    "["@ + joined(v.map_values(|s: Seq<char>| debug_quoted(s)), ", "@) + "]"@
}

/// The message of one fault.
pub open spec fn fault_text(f: FaultView) -> Seq<char> {
    match f {
        FaultView::UnsupportedPlatform(p, files) => "Unsupported platform: "@ + platform_text(p)
            + "\n "@ + list_text(files),
        FaultView::MissingDependency(id, file, dep) => "Missing dependency for "@ + id + " ("@
            + file + "): "@ + dep,
        FaultView::VersionConflict(file, id, required, found, found_file) => "Version conflict for "@
            + file + ":\n    required "@ + id + " "@ + required + ", found "@ + found + " ("@
            + found_file + ") "@,
        FaultView::CircularDependency(chain) => "Circular dependency detected: "@ + joined(
            chain,
            " -> "@,
        ),
        FaultView::InvalidVersionFormat(id, file, text) => "Invalid version format for "@ + id
            + " ("@ + file + "): \""@ + text + "\""@,
    }
}

/// The text of a report: one message per fault, separated by line breaks.
pub open spec fn report_text(faults: Seq<FaultView>) -> Seq<char> {
    joined(faults.map_values(|f: FaultView| fault_text(f)), "\n"@)
}

impl Platform {
    /// The tag as a report shows it.
    pub fn render(&self) -> (r: String)
        ensures
            r@ == platform_text(self@),
    {
        match self {
            Platform::Forge => String::from_str("Forge"),
            Platform::Fabric => String::from_str("Fabric"),
            Platform::NeoForge => String::from_str("NeoForge"),
            Platform::Quilt => String::from_str("Quilt"),
            Platform::Unknown(name) => {
                let mut r = String::from_str("Unknown(");
                r.append(debug_text(name.as_str()).as_str());
                r.append(")");
                r
            },
        }
    }
}

fn render_list(v: &Vec<String>) -> (r: String)
    ensures
        r@ == list_text(texts_view(v@)),
{
    let mut quoted: Vec<String> = Vec::new();
    let mut i: usize = 0;
    while i < v.len()
        invariant
            i <= v.len(),
            texts_view(quoted@) == texts_view(v@.subrange(0, i as int)).map_values(
                |s: Seq<char>| debug_quoted(s),
            ),
        decreases v.len() - i,
    {
        let ghost prev = quoted@;
        quoted.push(debug_text(v[i].as_str()));
        proof {
            assert(texts_view(quoted@) =~= texts_view(prev).push(debug_quoted(v@[i as int]@)));
            assert(texts_view(v@.subrange(0, i + 1)).map_values(|s: Seq<char>| debug_quoted(s))
                =~= texts_view(v@.subrange(0, i as int)).map_values(
                |s: Seq<char>| debug_quoted(s),
            ).push(debug_quoted(v@[i as int]@)));
        }
        i = i + 1;
    }
    proof {
        assert(v@.subrange(0, v.len() as int) =~= v@);
    }
    let mut r = String::from_str("[");
    r.append(join_texts(&quoted, ", ").as_str());
    r.append("]");
    r
}

impl DependencyError {
    /// The message of this fault.
    pub fn render(&self) -> (r: String)
        ensures
            r@ == fault_text(self@),
    {
        match self {
            DependencyError::UnsupportedPlatform(platform, files) => {
                let mut r = String::from_str("Unsupported platform: ");
                r.append(platform.render().as_str());
                r.append("\n ");
                r.append(render_list(files).as_str());
                r
            },
            DependencyError::MissingDependency(id, file, dep) => {
                let mut r = String::from_str("Missing dependency for ");
                r.append(id.as_str());
                r.append(" (");
                r.append(file.as_str());
                r.append("): ");
                r.append(dep.as_str());
                r
            },
            DependencyError::VersionConflict(file, id, required, found, found_file) => {
                let mut r = String::from_str("Version conflict for ");
                r.append(file.as_str());
                r.append(":\n    required ");
                r.append(id.as_str());
                r.append(" ");
                r.append(required.as_str());
                r.append(", found ");
                r.append(found.as_str());
                r.append(" (");
                r.append(found_file.as_str());
                r.append(") ");
                r
            },
            DependencyError::CircularDependency(chain) => {
                let mut r = String::from_str("Circular dependency detected: ");
                r.append(join_texts(chain, " -> ").as_str());
                r
            },
            DependencyError::InvalidVersionFormat(id, file, text) => {
                let mut r = String::from_str("Invalid version format for ");
                r.append(id.as_str());
                r.append(" (");
                r.append(file.as_str());
                r.append("): \"");
                r.append(text.as_str());
                r.append("\"");
                r
            },
        }
    }
}

impl DependencyErrors {
    /// The text of the report: one message per fault, separated by line
    /// breaks.
    pub fn render(&self) -> (r: String)
        ensures
            r@ == report_text(self@),
    {
        let mut messages: Vec<String> = Vec::new();
        let mut i: usize = 0;
        while i < self.0.len()
            invariant
                i <= self.0.len(),
                texts_view(messages@) == faults_view(self.0@.subrange(0, i as int)).map_values(
                    |f: FaultView| fault_text(f),
                ),
            decreases self.0.len() - i,
        {
            let ghost prev = messages@;
            messages.push(self.0[i].render());
            proof {
                assert(texts_view(messages@) =~= texts_view(prev).push(fault_text(self.0@[i as int]@)));
                assert(faults_view(self.0@.subrange(0, i + 1)).map_values(|f: FaultView| fault_text(f))
                    =~= faults_view(self.0@.subrange(0, i as int)).map_values(
                    |f: FaultView| fault_text(f),
                ).push(fault_text(self.0@[i as int]@)));
            }
            i = i + 1;
        }
        proof {
            assert(self.0@.subrange(0, self.0.len() as int) =~= self.0@);
        }
        join_texts(&messages, "\n")
    }
}

} // verus!

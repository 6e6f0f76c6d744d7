//! The build-metadata placeholder of the table-described ecosystems: a
//! declared version `${file.jarVersion}` stands for the
//! `Implementation-Version` of the archive's manifest.

use crate::text::{
    begins_with, second_field, second_field_of, split_pieces, split_text, starts_with_text,
    strip_cr, text_lines, lemma_split_pieces_nonempty,
};
use vstd::prelude::*;
use vstd::string::*;

verus! {

/// Why a declared version could not be resolved.
#[derive(Debug, Clone, Copy, PartialEq, Eq, Structural)]
pub enum DescriptorError {
    /// The placeholder is used and the archive has no manifest.
    ManifestMissing,
    /// The placeholder is used and the manifest has no version line.
    VersionLineMissing,
}

/// The first line that begins with `Implementation-Version:`.
pub open spec fn version_line(lines: Seq<Seq<char>>) -> Option<Seq<char>>
    decreases lines.len(),
{
    if lines.len() == 0 {
        None
    } else if begins_with(lines[0], "Implementation-Version:"@) {
        Some(lines[0])
    } else {
        version_line(lines.drop_first())
    }
}

/// The version a manifest gives: what follows the first `": "` of its
/// version line (up to a further `": "`), or `unknown` where the line has no
/// `": "`; none without a version line.
pub open spec fn manifest_version(m: Seq<char>) -> Option<Seq<char>> {
    match version_line(text_lines(m)) {
        None => None,
        Some(l) => Some(
            match second_field(l) {
                Some(v) => v,
                None => "unknown"@,
            },
        ),
    }
}

fn strip_cr_text(l: &str) -> (r: &str)
    ensures
        r@ == strip_cr(l@),
{
    let len = l.unicode_len();
    if len > 0 && l.get_char(len - 1) == '\r' {
        l.substring_char(0, len - 1)
    } else {
        l
    }
}

fn line_version(line: &str) -> (r: String)
    ensures
        r@ == (match second_field(line@) {
            Some(v) => v,
            None => "unknown"@,
        }),
{
    match second_field_of(line) {
        Some(v) => v,
        None => String::from_str("unknown"),
    }
}

/// The version that the manifest text `m` gives, if it has a version line.
pub fn jar_version_from_manifest(m: &str) -> (r: Option<String>)
    ensures
        match r {
            Some(v) => manifest_version(m@) == Some(v@),
            None => manifest_version(m@) is None,
        },
{
    let pieces = split_text(m, '\n');
    let ghost pv = pieces@.map_values(|p: String| p@);
    let ghost lines = text_lines(m@);
    proof {
        lemma_split_pieces_nonempty(m@, '\n');
    }
    let n = pieces.len();
    let mut i: usize = 0;
    proof {
        assert(lines.subrange(0, lines.len() as int) =~= lines);
    }
    while i < n - 1
        invariant
            n == pieces@.len(),
            n >= 1,
            pv == pieces@.map_values(|p: String| p@),
            pv == split_pieces(m@, '\n'),
            lines == text_lines(m@),
            i <= n - 1,
            version_line(lines) == version_line(lines.subrange(i as int, lines.len() as int)),
        decreases n - 1 - i,
    {
        let line = strip_cr_text(pieces[i].as_str());
        proof {
            assert(lines[i as int] == line@);
            assert(lines.subrange(i as int, lines.len() as int).drop_first() =~= lines.subrange(
                i + 1,
                lines.len() as int,
            ));
        }
        if starts_with_text(line, "Implementation-Version:") {
            return Some(line_version(line));
        }
        i = i + 1;
    }
    let last = pieces[n - 1].as_str();
    proof {
        assert(pv.last() == last@);
    }
    if last.unicode_len() > 0 {
        proof {
            assert(lines.len() == n);
            assert(lines[n - 1] == last@);
            assert(lines.subrange(n - 1, lines.len() as int).drop_first() =~= Seq::<Seq<char>>::empty());
            assert(version_line(Seq::<Seq<char>>::empty()) is None);
        }
        if starts_with_text(last, "Implementation-Version:") {
            return Some(line_version(last));
        }
        proof {
            assert(lines.subrange(n - 1, lines.len() as int)[0] == last@);
            assert(version_line(lines.subrange(n - 1, lines.len() as int)) == version_line(
                lines.subrange(n - 1, lines.len() as int).drop_first(),
            ));
        }
    } else {
        proof {
            assert(lines.len() == n - 1);
            assert(lines.subrange(n - 1, lines.len() as int) =~= Seq::<Seq<char>>::empty());
        }
    }
    None
}

pub open spec fn opt_str_view(m: Option<&str>) -> Option<Seq<char>> {
    match m {
        Some(s) => Some(s@),
        None => None,
    }
}

/// Whether `declared` is the placeholder that the manifest resolves.
pub open spec fn is_placeholder(declared: Seq<char>) -> bool {
    declared == "${file.jarVersion}"@
}

/// The version a record gets from its declared version and the archive's
/// manifest text, if any.
pub open spec fn resolved_version(declared: Seq<char>, manifest: Option<Seq<char>>) -> Result<
    Seq<char>,
    DescriptorError,
> {
    if !is_placeholder(declared) {
        Ok(declared)
    } else {
        match manifest {
            None => Err(DescriptorError::ManifestMissing),
            Some(m) => match manifest_version(m) {
                None => Err(DescriptorError::VersionLineMissing),
                Some(v) => Ok(v),
            },
        }
    }
}

/// Whether a declared version needs the archive's manifest.
pub fn needs_manifest(declared: &String) -> (r: bool)
    ensures
        r == is_placeholder(declared@),
{
    *declared == String::from_str("${file.jarVersion}")
}

/// Resolves a declared version against the archive's manifest text.
pub fn resolve_entry_version(declared: &String, manifest: Option<&str>) -> (r: Result<
    String,
    DescriptorError,
>)
    ensures
        match r {
            Ok(v) => resolved_version(declared@, opt_str_view(manifest)) == Ok::<
                Seq<char>,
                DescriptorError,
            >(v@),
            Err(e) => resolved_version(declared@, opt_str_view(manifest)) == Err::<
                Seq<char>,
                DescriptorError,
            >(e),
        },
{
    if !needs_manifest(declared) {
        return Ok(declared.clone());
    }
    match manifest {
        None => Err(DescriptorError::ManifestMissing),
        Some(m) => match jar_version_from_manifest(m) {
            None => Err(DescriptorError::VersionLineMissing),
            Some(v) => Ok(v),
        },
    }
}

} // verus!

//! The compression formats an archive can be written in.

use crate::text::same_text;
use vstd::prelude::*;

verus! {

/// The format an archive is compressed with.
#[derive(Debug, Clone, Copy, PartialEq, Eq, Structural, Hash, PartialOrd, Ord)]
pub enum CompressionFormat {
    Zip,
    Zstd,
}

impl CompressionFormat {
    /// Every format, in the order in which they are offered for selection.
    pub const ALL: [CompressionFormat; 2] = [CompressionFormat::Zip, CompressionFormat::Zstd];

    /// The extension of an archive file of this format, without the leading dot.
    pub open spec fn ext(self) -> Seq<char> {
        match self {
            CompressionFormat::Zip => "zip"@,
            CompressionFormat::Zstd => "tar.zst"@,
        }
    }

    /// The name under which the format is shown.
    pub open spec fn label(self) -> Seq<char> {
        match self {
            CompressionFormat::Zip => "Zip"@,
            CompressionFormat::Zstd => "Zstd"@,
        }
    }

    /// The format that `s` names: `zip` or `Zip`, `zstd` or `Zstd`, letter for
    /// letter; no other text names a format.
    pub open spec fn named(s: Seq<char>) -> Option<CompressionFormat> {
        if s == "zip"@ || s == "Zip"@ {
            Some(CompressionFormat::Zip)
        } else if s == "zstd"@ || s == "Zstd"@ {
            Some(CompressionFormat::Zstd)
        } else {
            None
        }
    }

    /// What is said of a text that names no format.
    pub open spec fn valid_values() -> Seq<char> {
        "valid values are: zip, zstd"@
    }

    /// The extension of an archive file of this format, without the leading dot.
    pub fn file_ext(&self) -> (ext: &'static str)
        ensures
            ext@ == self.ext(),
    {
        match self {
            CompressionFormat::Zip => "zip",
            CompressionFormat::Zstd => "tar.zst",
        }
    }

    /// The name under which the format is shown.
    pub fn display(&self) -> (label: &'static str)
        ensures
            label@ == self.label(),
    {
        match self {
            CompressionFormat::Zip => "Zip",
            CompressionFormat::Zstd => "Zstd",
        }
    }

    /// The format that `s` names, or the list of the valid values where it
    /// names none.
    pub fn parse(s: &str) -> (parsed: Result<CompressionFormat, &'static str>)
        ensures
            parsed matches Ok(format) ==> Self::named(s@) == Some(format),
            parsed matches Err(message) ==> Self::named(s@) is None && message@
                == Self::valid_values(),
    {
        if same_text(s, "zip") || same_text(s, "Zip") {
            Ok(CompressionFormat::Zip)
        } else if same_text(s, "zstd") || same_text(s, "Zstd") {
            Ok(CompressionFormat::Zstd)
        } else {
            Err("valid values are: zip, zstd")
        }
    }
}

impl Default for CompressionFormat {
    /// The format of a backup for which none was chosen.
    fn default() -> (format: CompressionFormat)
        ensures
            format == CompressionFormat::Zip,
    {
        CompressionFormat::Zip
    }
}

impl std::str::FromStr for CompressionFormat {
    type Err = &'static str;

    /// As `CompressionFormat::parse`.
    fn from_str(s: &str) -> (parsed: Result<CompressionFormat, &'static str>)
        ensures
            parsed matches Ok(format) ==> Self::named(s@) == Some(format),
            parsed matches Err(message) ==> Self::named(s@) is None && message@
                == Self::valid_values(),
    {
        CompressionFormat::parse(s)
    }
}

/// The two ways of writing each format's name name the same format, and the
/// names of the two formats differ.
pub proof fn lemma_four_names()
    ensures
        CompressionFormat::named("zip"@) == Some(CompressionFormat::Zip),
        CompressionFormat::named("Zip"@) == Some(CompressionFormat::Zip),
        CompressionFormat::named("zstd"@) == Some(CompressionFormat::Zstd),
        CompressionFormat::named("Zstd"@) == Some(CompressionFormat::Zstd),
{
    reveal_strlit("zip");
    reveal_strlit("Zip");
    reveal_strlit("zstd");
    reveal_strlit("Zstd");
    assert("zip"@.len() == 3 && "Zip"@.len() == 3);
    assert("zstd"@.len() == 4 && "Zstd"@.len() == 4);
}

} // verus!

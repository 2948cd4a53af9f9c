//! Classification of repository entries by file extension into the fixed
//! set of supported script kinds.

use vstd::prelude::*;

use crate::text::str_eq;

verus! {

/// Script kinds that run through a platform-specific interpreter.
#[derive(Clone, Copy, Debug, PartialEq, Eq, Structural)]
pub enum PlatformSpecificFileType {
    Bash,
    Powershell,
}

/// The classified type of a repository file: a platform script, a Python
/// script, or an unhandled extension (which carries the extension text).
#[derive(Debug)]
pub enum CommandFileType {
    Platform(PlatformSpecificFileType),
    Python,
    Unhandled(String),
}

/// Spec-level mirror of [`CommandFileType`].
pub enum FileTypeV {
    Platform(PlatformSpecificFileType),
    Python,
    Unhandled(Seq<char>),
}

impl View for CommandFileType {
    type V = FileTypeV;

    open spec fn view(&self) -> FileTypeV {
        match self {
            CommandFileType::Platform(p) => FileTypeV::Platform(*p),
            CommandFileType::Python => FileTypeV::Python,
            CommandFileType::Unhandled(e) => FileTypeV::Unhandled(e@),
        }
    }
}

impl Clone for CommandFileType {
    fn clone(&self) -> (r: Self)
        ensures
            r@ == self@,
    {
        match self {
            CommandFileType::Platform(p) => CommandFileType::Platform(*p),
            CommandFileType::Python => CommandFileType::Python,
            CommandFileType::Unhandled(e) => CommandFileType::Unhandled(e.clone()),
        }
    }
}

/// Classification of an extension into a platform script kind.
pub open spec fn spec_platform_file_type(ext: Seq<char>) -> FileTypeV {
    if ext == "sh"@ {
        FileTypeV::Platform(PlatformSpecificFileType::Bash)
    } else if ext == "ps1"@ {
        FileTypeV::Platform(PlatformSpecificFileType::Powershell)
    } else {
        FileTypeV::Unhandled(ext)
    }
}

/// Classification of an extension into a file type: Python first, then the
/// platform script kinds, everything else unhandled.
pub open spec fn spec_command_file_type(ext: Seq<char>) -> FileTypeV {
    if ext == "py"@ {
        FileTypeV::Python
    } else {
        spec_platform_file_type(ext)
    }
}

/// A type is supported when classification did not fall through to
/// `Unhandled`.
pub open spec fn is_supported(t: FileTypeV) -> bool {
    !(t is Unhandled)
}

/// Types that classify a file extension into a [`CommandFileType`].
pub trait FileTypeSpecifier {
    /// What the classification returns for a given extension.
    spec fn spec_from_extension(ext: Seq<char>) -> FileTypeV;

    /// Classify an extension.
    fn from_extension(extension: &str) -> (t: CommandFileType)
        ensures
            t@ == Self::spec_from_extension(extension@),
    ;
}

impl FileTypeSpecifier for PlatformSpecificFileType {
    open spec fn spec_from_extension(ext: Seq<char>) -> FileTypeV {
        spec_platform_file_type(ext)
    }

    fn from_extension(extension: &str) -> (t: CommandFileType) {
        if str_eq(extension, "sh") {
            CommandFileType::Platform(PlatformSpecificFileType::Bash)
        } else if str_eq(extension, "ps1") {
            CommandFileType::Platform(PlatformSpecificFileType::Powershell)
        } else {
            CommandFileType::Unhandled(extension.to_owned())
        }
    }
}

impl FileTypeSpecifier for CommandFileType {
    open spec fn spec_from_extension(ext: Seq<char>) -> FileTypeV {
        spec_command_file_type(ext)
    }

    fn from_extension(extension: &str) -> (t: CommandFileType) {
        if str_eq(extension, "py") {
            CommandFileType::Python
        } else {
            PlatformSpecificFileType::from_extension(extension)
        }
    }
}

impl CommandFileType {
    /// Is this a supported script kind?
    pub fn is_supported(&self) -> (r: bool)
        ensures
            r == is_supported(self@),
    {
        match self {
            CommandFileType::Unhandled(_) => false,
            _ => true,
        }
    }
}

/// What a repository file is for: a command script of some kind, or a
/// configuration record for one.
#[derive(Debug)]
pub enum FileType {
    Command(CommandFileType),
    Config,
}

} // verus!

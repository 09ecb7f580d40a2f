use vstd::prelude::*;

verus! {

/// The error taxonomy of the converter.  Every failure of a conversion is
/// one of these; each carries a human-readable detail string.
#[derive(Debug, Clone, PartialEq)]
pub enum PandorustError {
    /// Reading the source or writing the destination failed.
    Io(String),
    /// The requested input format token is not recognized.
    UnsupportedInputFormat(String),
    /// The requested output format token is not recognized.
    UnsupportedOutputFormat(String),
    /// The front-matter block could not be parsed as a mapping.
    YamlError(String),
    /// The DOCX packaging collaborator could not finalize the archive.
    DocxError(String),
}

impl PandorustError {
    /// The detail string carried by this error, without a prefix.
    pub fn detail(&self) -> (r: &String)
        ensures
            r@ == match self {
                PandorustError::Io(s) => s@,
                PandorustError::UnsupportedInputFormat(s) => s@,
                PandorustError::UnsupportedOutputFormat(s) => s@,
                PandorustError::YamlError(s) => s@,
                PandorustError::DocxError(s) => s@,
            },
    {
        match self {
            PandorustError::Io(s) => s,
            PandorustError::UnsupportedInputFormat(s) => s,
            PandorustError::UnsupportedOutputFormat(s) => s,
            PandorustError::YamlError(s) => s,
            PandorustError::DocxError(s) => s,
        }
    }

    /// A full human-readable message, prefix plus detail.
    pub fn message(&self) -> (r: String)
        ensures
            r@ == match self {
                PandorustError::Io(s) => "IO error: "@ + s@,
                PandorustError::UnsupportedInputFormat(s) => "Unsupported input format: "@ + s@,
                PandorustError::UnsupportedOutputFormat(s) => "Unsupported output format: "@ + s@,
                PandorustError::YamlError(s) => "YAML front matter parse error: "@ + s@,
                PandorustError::DocxError(s) => "DOCX generation error: "@ + s@,
            },
    {
        match self {
            PandorustError::Io(s) => "IO error: ".to_owned().concat(s.as_str()),
            PandorustError::UnsupportedInputFormat(s) => "Unsupported input format: ".to_owned().concat(s.as_str()),
            PandorustError::UnsupportedOutputFormat(s) => "Unsupported output format: ".to_owned().concat(s.as_str()),
            PandorustError::YamlError(s) => "YAML front matter parse error: ".to_owned().concat(s.as_str()),
            PandorustError::DocxError(s) => "DOCX generation error: ".to_owned().concat(s.as_str()),
        }
    }
}

} // verus!

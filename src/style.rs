use vstd::prelude::*;

verus! {

/// A visual treatment for a span of output text.
#[derive(Clone, Copy, Debug, PartialEq, Eq, Structural)]
pub enum Tone {
    Plain,
    Bold,
    Underlined,
    Dim,
    /// The confirmation that nothing was found.
    Success,
    /// High-alert banner (errors).
    AlertBanner,
    /// Low-alert banner (warnings, advice, disabled).
    NoticeBanner,
    /// Text removed by a fix.
    Removed,
    /// Text added by a fix.
    Added,
    /// Unchanged text around a change.
    Unchanged,
    /// A changed span inside a removed line.
    RemovedEmphasis,
    /// A changed span inside an added line.
    AddedEmphasis,
    /// A changed span inside an unchanged line.
    UnchangedEmphasis,
    /// A removal sign, bold.
    RemovedSign,
    /// An addition sign, bold.
    AddedSign,
    /// The sign column of an unchanged line, bold.
    UnchangedSign,
    /// The reported line of a context window.
    Highlight,
    /// The label of a fatal error line.
    ErrorLabel,
}

/// One piece of output text with its treatment.
pub struct Span {
    pub text: String,
    pub tone: Tone,
}

/// The severity of a finding.
#[derive(Clone, Copy, Debug, PartialEq, Eq, Structural)]
pub enum Severity {
    Error,
    Warning,
    Advice,
    Disabled,
}

/// Errors get the high-alert banner; every other severity shares the
/// low-alert one.
pub open spec fn banner_of(s: Severity) -> Tone {
    match s {
        Severity::Error => Tone::AlertBanner,
        _ => Tone::NoticeBanner,
    }
}

pub fn severity_tone(s: Severity) -> (r: Tone)
    ensures
        r == banner_of(s),
{
    match s {
        Severity::Error => Tone::AlertBanner,
        Severity::Warning | Severity::Advice | Severity::Disabled => Tone::NoticeBanner,
    }
}

pub open spec fn label_of(s: Severity) -> Seq<char> {
    match s {
        Severity::Error => "Error"@,
        Severity::Warning => "Warning"@,
        Severity::Advice => "Advice"@,
        Severity::Disabled => "Disabled"@,
    }
}

impl Severity {
    /// The word shown in a finding's banner.
    pub fn label(&self) -> (r: String)
        ensures
            r@ == label_of(*self),
    {
        match self {
            Severity::Error => String::from_str("Error"),
            Severity::Warning => String::from_str("Warning"),
            Severity::Advice => String::from_str("Advice"),
            Severity::Disabled => String::from_str("Disabled"),
        }
    }
}

/// What a run of spans shows: each span's text with its treatment.
pub open spec fn pieces(v: Seq<Span>) -> Seq<(Seq<char>, Tone)> {
    v.map_values(|s: Span| (s.text@, s.tone))
}

/// What each row of spans shows.
pub open spec fn rows_view(v: Seq<Vec<Span>>) -> Seq<Seq<(Seq<char>, Tone)>> {
    v.map_values(|row: Vec<Span>| pieces(row@))
}

/// A span made of a literal.
pub fn literal(text: &str, tone: Tone) -> (r: Span)
    ensures
        r.text@ == text@,
        r.tone == tone,
{
    Span { text: String::from_str(text), tone }
}

} // verus!

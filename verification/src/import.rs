use vstd::prelude::*;
use vstd::string::*;

verus! {

/// The song file format that an import came from.
#[derive(Debug, Clone, Copy, PartialEq, Eq, Structural)]
pub enum ImportedFormat {
    Midi,
    Mod,
    Xm,
}

/// The name of a format as `{:?}` prints it.
pub open spec fn format_name(format: ImportedFormat) -> Seq<char> {
    match format {
        ImportedFormat::Midi => "Midi"@,
        ImportedFormat::Mod => "Mod"@,
        ImportedFormat::Xm => "Xm"@,
    }
}

fn format_name_str(format: ImportedFormat) -> (r: &'static str)
    ensures
        r@ == format_name(format),
{
    match format {
        ImportedFormat::Midi => "Midi",
        ImportedFormat::Mod => "Mod",
        ImportedFormat::Xm => "Xm",
    }
}

/// What an import could not carry over exactly.
#[derive(Debug, Clone, PartialEq, Eq, Default)]
pub enum ImportWarningKind {
    UnsupportedEvent { format: ImportedFormat, event: String },
    UnsupportedEffect { format: ImportedFormat, effect: String },
    ApproximatedTiming { format: ImportedFormat, detail: String },
    UnsupportedSampleEncoding { format: ImportedFormat, encoding: String },
    #[default]
    InvalidMetadata,
    DroppedControllerOrAutomation { format: ImportedFormat, controller: String },
}

/// A note about something an import approximated or left out.
#[derive(Debug, Clone, PartialEq, Eq, Default)]
pub struct ImportWarning {
    pub message: String,
    pub kind: ImportWarningKind,
}

/// The mathematical content of an `ImportWarningKind`: texts as character
/// sequences.
pub enum WarningKindView {
    UnsupportedEvent { format: ImportedFormat, event: Seq<char> },
    UnsupportedEffect { format: ImportedFormat, effect: Seq<char> },
    ApproximatedTiming { format: ImportedFormat, detail: Seq<char> },
    UnsupportedSampleEncoding { format: ImportedFormat, encoding: Seq<char> },
    InvalidMetadata,
    DroppedControllerOrAutomation { format: ImportedFormat, controller: Seq<char> },
}

/// The mathematical content of an `ImportWarning`.
pub struct WarningView {
    pub message: Seq<char>,
    pub kind: WarningKindView,
}

impl View for ImportWarningKind {
    type V = WarningKindView;

    open spec fn view(&self) -> WarningKindView {
        match self {
            ImportWarningKind::UnsupportedEvent { format, event } =>
                WarningKindView::UnsupportedEvent { format: *format, event: event@ },
            ImportWarningKind::UnsupportedEffect { format, effect } =>
                WarningKindView::UnsupportedEffect { format: *format, effect: effect@ },
            ImportWarningKind::ApproximatedTiming { format, detail } =>
                WarningKindView::ApproximatedTiming { format: *format, detail: detail@ },
            ImportWarningKind::UnsupportedSampleEncoding { format, encoding } =>
                WarningKindView::UnsupportedSampleEncoding { format: *format, encoding: encoding@ },
            ImportWarningKind::InvalidMetadata => WarningKindView::InvalidMetadata,
            ImportWarningKind::DroppedControllerOrAutomation { format, controller } =>
                WarningKindView::DroppedControllerOrAutomation { format: *format, controller: controller@ },
        }
    }
}

impl View for ImportWarning {
    type V = WarningView;

    open spec fn view(&self) -> WarningView {
        WarningView { message: self.message@, kind: self.kind@ }
    }
}

/// The views of a list of warnings.
pub open spec fn warnings_view(warnings: Seq<ImportWarning>) -> Seq<WarningView> {
    warnings.map_values(|w: ImportWarning| w@)
}

/// A warning about invalid metadata.
pub open spec fn metadata_warning(message: Seq<char>) -> WarningView {
    WarningView { message, kind: WarningKindView::InvalidMetadata }
}

/// A warning about an event that the import does not support.
pub open spec fn event_warning(format: ImportedFormat, event: Seq<char>) -> WarningView {
    WarningView {
        message: "unsupported "@ + format_name(format) + " event "@ + event,
        kind: WarningKindView::UnsupportedEvent { format, event },
    }
}

/// A warning about an effect command that the import does not support.
pub open spec fn effect_warning(format: ImportedFormat, effect: Seq<char>) -> WarningView {
    WarningView {
        message: "unsupported "@ + format_name(format) + " effect "@ + effect,
        kind: WarningKindView::UnsupportedEffect { format, effect },
    }
}

/// A warning about timing imported on an approximate grid.
pub open spec fn timing_warning(format: ImportedFormat, detail: Seq<char>) -> WarningView {
    WarningView { message: detail, kind: WarningKindView::ApproximatedTiming { format, detail } }
}

/// A warning about a controller or automation that the import dropped.
pub open spec fn dropped_warning(format: ImportedFormat, controller: Seq<char>) -> WarningView {
    WarningView {
        message: "dropped "@ + format_name(format) + " controller or automation "@ + controller,
        kind: WarningKindView::DroppedControllerOrAutomation { format, controller },
    }
}

fn concat3(a: &str, b: &str, c: &str) -> (r: String)
    ensures
        r@ == a@ + b@ + c@,
{
    let mut r = String::from_str(a);
    r.append(b);
    r.append(c);
    r
}

impl ImportWarning {
    /// A warning about invalid metadata with the given message.
    pub fn new(message: String) -> (r: Self)
        ensures
            r@ == metadata_warning(message@),
    {
        ImportWarning { message, kind: ImportWarningKind::InvalidMetadata }
    }

    /// An event of the format that the import does not support.
    pub fn unsupported_event(format: ImportedFormat, event: String) -> (r: Self)
        ensures
            r@ == event_warning(format, event@),
    {
        let mut message = concat3("unsupported ", format_name_str(format), " event ");
        message.append(event.as_str());
        ImportWarning { message, kind: ImportWarningKind::UnsupportedEvent { format, event } }
    }

    /// An effect command of the format that the import does not support.
    pub fn unsupported_effect(format: ImportedFormat, effect: String) -> (r: Self)
        ensures
            r@ == effect_warning(format, effect@),
    {
        let mut message = concat3("unsupported ", format_name_str(format), " effect ");
        message.append(effect.as_str());
        ImportWarning { message, kind: ImportWarningKind::UnsupportedEffect { format, effect } }
    }

    /// Timing that was imported on an approximate grid.
    pub fn approximated_timing(format: ImportedFormat, detail: String) -> (r: Self)
        ensures
            r@ == timing_warning(format, detail@),
    {
        let message = detail.clone();
        ImportWarning { message, kind: ImportWarningKind::ApproximatedTiming { format, detail } }
    }

    /// A controller or automation that the import dropped.
    pub fn dropped_controller(format: ImportedFormat, controller: String) -> (r: Self)
        ensures
            r@ == dropped_warning(format, controller@),
    {
        let mut message = concat3("dropped ", format_name_str(format), " controller or automation ");
        message.append(controller.as_str());
        ImportWarning {
            message,
            kind: ImportWarningKind::DroppedControllerOrAutomation { format, controller },
        }
    }
}

/// Why an import was refused.
#[derive(Debug, Clone, PartialEq, Eq)]
pub enum ImportError {
    InvalidFormat(&'static str),
    UnsupportedFormatFeature(&'static str),
    MalformedTiming(&'static str),
    MalformedSampleData(&'static str),
    ParserFailure(String),
}

impl ImportError {
    /// The message that the error displays.
    pub fn to_string(&self) -> (r: String)
        ensures
            r@ == match self {
                ImportError::InvalidFormat(m) => "invalid format: "@ + m@,
                ImportError::UnsupportedFormatFeature(m) => "unsupported format feature: "@ + m@,
                ImportError::MalformedTiming(m) => "malformed timing: "@ + m@,
                ImportError::MalformedSampleData(m) => "malformed sample data: "@ + m@,
                ImportError::ParserFailure(m) => "parser failure: "@ + m@,
            },
    {
        let (prefix, message): (&str, &str) = match self {
            ImportError::InvalidFormat(m) => ("invalid format: ", m),
            ImportError::UnsupportedFormatFeature(m) => ("unsupported format feature: ", m),
            ImportError::MalformedTiming(m) => ("malformed timing: ", m),
            ImportError::MalformedSampleData(m) => ("malformed sample data: ", m),
            ImportError::ParserFailure(m) => ("parser failure: ", m.as_str()),
        };
        let mut r = String::from_str(prefix);
        r.append(message);
        r
    }
}

} // verus!

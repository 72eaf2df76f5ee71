//! The menu of streams, tasks and export formats a run can be configured
//! with: the kinds, their wire names and prompt messages, and the plain
//! parameter records the configuration layer fills.
use crate::text::{lower_str, spec_lower_seq, str_eq, spec_trim, trim};
use vstd::prelude::*;

verus! {

/// The streams a run can read from.
#[derive(Clone, Copy, PartialEq, Eq, Structural, Debug)]
pub enum StreamKind {
    ArffFile,
    SeaGenerator,
    AgrawalGenerator,
    AssetNegotiationGenerator,
}

impl StreamKind {
    /// The kebab-case name the kind is written as in configuration.
    pub fn as_str(&self) -> (r: &'static str)
        ensures
            r@ == match self {
                StreamKind::ArffFile => "arff-file"@,
                StreamKind::SeaGenerator => "sea-generator"@,
                StreamKind::AgrawalGenerator => "agrawal-generator"@,
                StreamKind::AssetNegotiationGenerator => "asset-negotiation-generator"@,
            },
    {
        match self {
            StreamKind::ArffFile => "arff-file",
            StreamKind::SeaGenerator => "sea-generator",
            StreamKind::AgrawalGenerator => "agrawal-generator",
            StreamKind::AssetNegotiationGenerator => "asset-negotiation-generator",
        }
    }

    /// The short label shown for the kind.
    pub fn get_message(&self) -> (r: Option<&'static str>)
        ensures
            r matches Some(m) && m@ == match self {
                StreamKind::ArffFile => "Arff File Stream"@,
                StreamKind::SeaGenerator => "SEA Generator"@,
                StreamKind::AgrawalGenerator => "Agrawal Generator"@,
                StreamKind::AssetNegotiationGenerator => "Asset Negotiation Generator"@,
            },
    {
        match self {
            StreamKind::ArffFile => Some("Arff File Stream"),
            StreamKind::SeaGenerator => Some("SEA Generator"),
            StreamKind::AgrawalGenerator => Some("Agrawal Generator"),
            StreamKind::AssetNegotiationGenerator => Some("Asset Negotiation Generator"),
        }
    }

    /// The sentence describing the kind.
    pub fn get_detailed_message(&self) -> (r: Option<&'static str>)
        ensures
            r is Some,
    {
        match self {
            StreamKind::ArffFile => Some("A stream read from an ARFF file."),
            StreamKind::SeaGenerator => Some("Generates SEA concept functions."),
            StreamKind::AgrawalGenerator => Some(
                "Generates one of ten different pre-defined loan functions.",
            ),
            StreamKind::AssetNegotiationGenerator => Some(
                "Generates instances using 5 concept functions to model agent interest.",
            ),
        }
    }
}

/// The tasks a run can execute.
#[derive(Clone, Copy, PartialEq, Eq, Structural, Debug)]
pub enum TaskKind {
    EvaluatePrequential,
}

impl TaskKind {
    pub fn as_str(&self) -> (r: &'static str)
        ensures
            r@ == "evaluate-prequential"@,
    {
        "evaluate-prequential"
    }

    pub fn get_message(&self) -> (r: Option<&'static str>)
        ensures
            r matches Some(m) && m@ == "Evaluate Prequential"@,
    {
        Some("Evaluate Prequential")
    }

    pub fn get_detailed_message(&self) -> (r: Option<&'static str>)
        ensures
            r is Some,
    {
        Some("Interleave test-then-train with periodic reporting.")
    }
}

/// How snapshot curves are written out.
#[derive(Clone, Copy, PartialEq, Eq, Structural, Debug)]
pub enum DumpFormat {
    Csv,
    Tsv,
    Json,
}

impl Default for DumpFormat {
    /// The default export format is CSV.
    fn default() -> (r: DumpFormat)
        ensures
            r == DumpFormat::Csv,
    {
        DumpFormat::Csv
    }
}

/// Reads an export format name: `csv`, `tsv` or `json`, case-insensitively
/// and ignoring surrounding whitespace; anything else is refused.
pub fn parse_dump_format(input: &str) -> (r: Option<DumpFormat>)
    ensures
        match r {
            Some(f) => f == (if spec_lower_seq(spec_trim(input@)) == "csv"@ {
                DumpFormat::Csv
            } else if spec_lower_seq(spec_trim(input@)) == "tsv"@ {
                DumpFormat::Tsv
            } else {
                DumpFormat::Json
            }) && (spec_lower_seq(spec_trim(input@)) == "csv"@ || spec_lower_seq(spec_trim(input@))
                == "tsv"@ || spec_lower_seq(spec_trim(input@)) == "json"@),
            None => spec_lower_seq(spec_trim(input@)) != "csv"@ && spec_lower_seq(spec_trim(input@))
                != "tsv"@ && spec_lower_seq(spec_trim(input@)) != "json"@,
        },
{
    let low = lower_str(trim(input));
    if str_eq(low.as_str(), "csv") {
        Some(DumpFormat::Csv)
    } else if str_eq(low.as_str(), "tsv") {
        Some(DumpFormat::Tsv)
    } else if str_eq(low.as_str(), "json") {
        Some(DumpFormat::Json)
    } else {
        None
    }
}

/// The kinds of parameter fields a configuration schema describes.
#[derive(Clone, Copy, PartialEq, Eq, Structural, Debug)]
pub enum FieldKind {
    Text,
    Integer,
    Number,
    Boolean,
}

/// Classifies a schema type name into the field kind it declares.
pub fn field_kind_from_name(name: &str) -> (r: Option<FieldKind>)
    ensures
        match r {
            Some(k) => (name@ == "string"@ && k == FieldKind::Text) || (name@ == "integer"@ && k
                == FieldKind::Integer) || (name@ == "number"@ && k == FieldKind::Number) || (name@
                == "boolean"@ && k == FieldKind::Boolean),
            None => name@ != "string"@ && name@ != "integer"@ && name@ != "number"@ && name@
                != "boolean"@,
        },
{
    if str_eq(name, "string") {
        Some(FieldKind::Text)
    } else if str_eq(name, "integer") {
        Some(FieldKind::Integer)
    } else if str_eq(name, "number") {
        Some(FieldKind::Number)
    } else if str_eq(name, "boolean") {
        Some(FieldKind::Boolean)
    } else {
        None
    }
}

/// Where an ARFF stream reads from: the file's path and the class column,
/// absent when the last attribute is the class.
pub struct ArffParameters {
    pub path: String,
    pub class_index: Option<usize>,
}

impl ArffParameters {
    pub fn new(path: String, class_index: Option<usize>) -> (r: ArffParameters)
        ensures
            r.path == path,
            r.class_index == class_index,
    {
        ArffParameters { path, class_index }
    }
}

} // verus!

//! The subset of the ETW manifest schema (`eventman.xsd`) used for wrapper generation.

use vstd::prelude::*;
use vstd::string::StringExecFns;

verus! {

/// A parsed instrumentation manifest.
pub type InstrumentationManifest = InstrumentationManifestType;

/// The root `<instrumentationManifest>` element.
#[derive(Debug, PartialEq, Eq)]
pub struct InstrumentationManifestType {
    /// The `instrumentation` element.
    pub instrumentation: InstrumentationType,
    /// The `localization` element.
    pub localization: Option<LocalizationType>,
}

/// Contains one `<resources>` block per culture.
#[derive(Debug, PartialEq, Eq)]
pub struct LocalizationType {
    /// The `resources` element.
    pub resources: Vec<ResourcesType>,
}

/// The localized resources of one culture.
#[derive(Debug, PartialEq, Eq)]
pub struct ResourcesType {
    /// The `culture` attribute.
    pub culture: String,
    /// The `string_table` element.
    pub string_table: Option<StringTableType>,
}

/// A culture's string table.
#[derive(Debug, PartialEq, Eq)]
pub struct StringTableType {
    /// The `string` element.
    pub string: Vec<StringType>,
}

/// One localized string.
#[derive(Debug, PartialEq, Eq)]
pub struct StringType {
    /// The `id` attribute.
    pub id: String,
    /// The `value` attribute.
    pub value: String,
}

/// The `<instrumentation>` element.
#[derive(Debug, PartialEq, Eq)]
pub struct InstrumentationType {
    /// The `events` element.
    pub events: EventsType,
}

/// The providers declared by the manifest.
#[derive(Debug, PartialEq, Eq)]
pub struct EventsType {
    /// The `provider` element.
    pub provider: Vec<ProviderType>,
}

/// One provider declaration.
#[derive(Debug, PartialEq, Eq)]
pub struct ProviderType {
    /// The `name` attribute.
    pub name: String,
    /// The `guid` attribute.
    pub guid: String,
    /// The `symbol` attribute.
    pub symbol: String,
    /// The `channels` element.
    pub channels: Option<ChannelListType>,
    /// The `levels` element.
    pub levels: Option<LevelListType>,
    /// The `keywords` element.
    pub keywords: Option<KeywordListType>,
    /// The `opcodes` element.
    pub opcodes: Option<OpcodeListType>,
    /// The `tasks` element.
    pub tasks: Option<TaskListType>,
    /// The `templates` element.
    pub templates: Option<TemplateListType>,
    /// The `events` element.
    pub events: Option<EventDefinitionListType>,
}

/// A provider's channels.
#[derive(Debug, PartialEq, Eq)]
pub struct ChannelListType {
    /// The `channel` element.
    pub channel: Vec<ChannelType>,
}

/// One channel declaration.
#[derive(Debug, PartialEq, Eq)]
pub struct ChannelType {
    /// The `name` attribute.
    pub name: String,
    /// The `chid` attribute.
    pub chid: Option<String>,
    /// The `value` attribute.
    pub value: Option<String>,
}

/// A provider's levels.
#[derive(Debug, PartialEq, Eq)]
pub struct LevelListType {
    /// The `level` element.
    pub level: Vec<LevelType>,
}

/// One level declaration.
#[derive(Debug, PartialEq, Eq)]
pub struct LevelType {
    /// The `name` attribute.
    pub name: String,
    /// The `value` attribute.
    pub value: String,
}

/// A provider's keywords.
#[derive(Debug, PartialEq, Eq)]
pub struct KeywordListType {
    /// The `keyword` element.
    pub keyword: Vec<KeywordType>,
}

/// One keyword declaration.
#[derive(Debug, PartialEq, Eq)]
pub struct KeywordType {
    /// The `name` attribute.
    pub name: String,
    /// The `mask` attribute.
    pub mask: String,
}

/// A provider's opcodes.
#[derive(Debug, PartialEq, Eq)]
pub struct OpcodeListType {
    /// The `opcode` element.
    pub opcode: Vec<OpcodeType>,
}

/// One opcode declaration.
#[derive(Debug, PartialEq, Eq)]
pub struct OpcodeType {
    /// The `name` attribute.
    pub name: String,
    /// The `value` attribute.
    pub value: String,
}

/// A provider's tasks.
#[derive(Debug, PartialEq, Eq)]
pub struct TaskListType {
    /// The `task` element.
    pub task: Vec<TaskType>,
}

/// One task declaration.
#[derive(Debug, PartialEq, Eq)]
pub struct TaskType {
    /// The `name` attribute.
    pub name: String,
    /// The `value` attribute.
    pub value: String,
}

/// A provider's templates.
#[derive(Debug, PartialEq, Eq)]
pub struct TemplateListType {
    /// The `template` element.
    pub template: Vec<TemplateType>,
}

/// One template: an id and the data fields of its events.
#[derive(Debug, PartialEq, Eq)]
pub struct TemplateType {
    /// The `tid` attribute.
    pub tid: String,
    /// The `data` element.
    pub data: Vec<DataType>,
}

/// One template data field.
#[derive(Debug, PartialEq, Eq)]
pub struct DataType {
    /// The `name` attribute.
    pub name: String,
    /// The `in_type` attribute.
    pub in_type: String,
    /// The `out_type` attribute.
    pub out_type: Option<String>,
    /// The `length` attribute.
    pub length: Option<String>,
    /// The `count` attribute.
    pub count: Option<String>,
}

/// A provider's events.
#[derive(Debug, PartialEq, Eq)]
pub struct EventDefinitionListType {
    /// The `event` element.
    pub event: Vec<EventDefinitionType>,
}

/// One event definition.
#[derive(Debug, PartialEq, Eq)]
pub struct EventDefinitionType {
    /// The `value` attribute.
    pub value: String,
    /// The `symbol` attribute.
    pub symbol: Option<String>,
    /// The `version` attribute.
    pub version: Option<String>,
    /// The `channel` attribute.
    pub channel: Option<String>,
    /// The `level` attribute.
    pub level: Option<String>,
    /// The `opcode` attribute.
    pub opcode: Option<String>,
    /// The `task` attribute.
    pub task: Option<String>,
    /// The `keyword` attribute.
    pub keyword: Option<String>,
    /// The `template` attribute.
    pub template: Option<String>,
    /// The `message` attribute.
    pub message: Option<String>,
}

/// The culture of a `<resources>` block that declares none.
pub fn fallback_culture() -> (s: String)
    ensures
        s@ == "##fallback"@,
{
    String::from_str("##fallback")
}

} // verus!

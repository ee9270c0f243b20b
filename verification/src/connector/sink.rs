//! The kinds of sinks.

use vstd::prelude::*;

use crate::common::error::{fails, ErrorCode, ErrorView};
use crate::common::string_map::StringMap;
use crate::connector::kafka::KafkaConfig;

verus! {

/// Why a sink failed.
#[derive(Debug, PartialEq, Eq)]
pub enum SinkError {
    MySQL(String),
    Kafka(String),
    JsonParse(String),
    Config(String),
}

/// An error of a sink by its meaning.
pub enum SinkErrorView {
    MySQL(Seq<char>),
    Kafka(Seq<char>),
    JsonParse(Seq<char>),
    Config(Seq<char>),
}

impl View for SinkError {
    type V = SinkErrorView;

    open spec fn view(&self) -> SinkErrorView {
        match self {
            SinkError::MySQL(m) => SinkErrorView::MySQL(m@),
            SinkError::Kafka(m) => SinkErrorView::Kafka(m@),
            SinkError::JsonParse(m) => SinkErrorView::JsonParse(m@),
            SinkError::Config(m) => SinkErrorView::Config(m@),
        }
    }
}

/// The kind of a sink, as its state is stored.
#[derive(Clone, Copy, Debug, PartialEq, Eq, Structural)]
pub enum SinkState {
    Kafka,
    Mysql,
    Redis,
}

/// The options of a sink. Those of a MySQL or Redis sink are not looked into here.
#[derive(Debug)]
pub enum SinkConfig {
    Mysql(StringMap<String>),
    Redis,
    Kafka(KafkaConfig),
}

/// A string in lower case.
pub uninterp spec fn lowercase(s: Seq<char>) -> Seq<char>;

/// `str::to_lowercase` gives the string in lower case. What it gives depends on
/// the string alone.
#[verifier::external_body]
fn to_lowercase(s: &str) -> (r: String)
    ensures
        r@ == lowercase(s@),
{
    s.to_lowercase()
}

/// The kinds of sinks that can be made.
#[derive(Clone, Copy, Debug, PartialEq, Eq, Structural)]
pub enum SinkKind {
    Kafka,
    Mysql,
}

/// The kind that a name in lower case stands for.
pub open spec fn kind_of(name: Seq<char>) -> Option<SinkKind> {
    if name == "kafka"@ {
        Some(SinkKind::Kafka)
    } else if name == "mysql"@ {
        Some(SinkKind::Mysql)
    } else {
        None
    }
}

/// The kind that a name in lower case stands for.
pub fn sink_kind(name: &str) -> (r: Option<SinkKind>)
    ensures
        r == kind_of(name@),
{
    let name: String = name.to_owned();
    if name == "kafka".to_owned() {
        Some(SinkKind::Kafka)
    } else if name == "mysql".to_owned() {
        Some(SinkKind::Mysql)
    } else {
        None
    }
}

/// The error of options that do not name a kind of sink.
pub open spec fn no_sink_type() -> ErrorView {
    ErrorView::InvalidConfigValue { config_entry: "sink_type"@, config_value: ""@ }
}

/// The options are complete for a sink of the kind.
pub open spec fn complete_for(properties: Map<Seq<char>, String>, kind: Option<SinkKind>) -> bool {
    kind == Some(SinkKind::Kafka) ==> properties.contains_key("kafka.brokers"@) && properties.contains_key(
        "kafka.topic"@,
    )
}

/// The options of a sink of a known kind.
pub open spec fn is_config(config: SinkConfig, kind: SinkKind, properties: StringMap<String>) -> bool {
    match kind {
        SinkKind::Kafka => config matches SinkConfig::Kafka(c) && c.brokers == properties@["kafka.brokers"@] && c.topic
            == properties@["kafka.topic"@],
        SinkKind::Mysql => config == SinkConfig::Mysql(properties),
    }
}

/// The kind of sink that the options name.
pub open spec fn named_kind(properties: Map<Seq<char>, String>) -> Option<SinkKind> {
    kind_of(lowercase(properties["sink_type"@]@))
}

/// The options name a known kind, and are complete for it.
pub open spec fn can_make(properties: Map<Seq<char>, String>) -> bool {
    named_kind(properties) is Some && complete_for(properties, named_kind(properties))
}

impl SinkConfig {
    /// The options of a sink of a known kind. A kind other than Kafka and MySQL is not made here.
    pub fn for_kind(kind: SinkKind, properties: StringMap<String>) -> (r: SinkConfig)
        requires
            properties.wf(),
            complete_for(properties@, Some(kind)),
        ensures
            is_config(r, kind, properties),
    {
        match kind {
            SinkKind::Kafka => SinkConfig::Kafka(KafkaConfig::from_hashmap(properties).unwrap()),
            SinkKind::Mysql => SinkConfig::Mysql(properties),
        }
    }

    /// The options of a sink; they name its kind, and hold what it needs.
    pub fn from_hashmap(properties: StringMap<String>) -> (r: Result<SinkConfig, ErrorCode>)
        requires
            properties.wf(),
            properties@.contains_key("sink_type"@) ==> can_make(properties@),
        ensures
            if !properties@.contains_key("sink_type"@) {
                fails(r, no_sink_type())
            } else {
                r matches Ok(config) && is_config(config, named_kind(properties@)->0, properties)
            },
    {
        let sink_type = match properties.get("sink_type") {
            Some(sink_type) => to_lowercase(sink_type.as_str()),
            None => {
                return Err(
                    ErrorCode::InvalidConfigValue {
                        config_entry: "sink_type".to_owned(),
                        config_value: "".to_owned(),
                    },
                );
            },
        };
        let kind: SinkKind = sink_kind(sink_type.as_str()).unwrap();
        Ok(SinkConfig::for_kind(kind, properties))
    }

    /// The options of a sink, where they name a known kind and are complete for
    /// it; nothing where they do not.
    pub fn checked_from_hashmap(properties: StringMap<String>) -> (r: Result<Option<SinkConfig>, ErrorCode>)
        requires
            properties.wf(),
        ensures
            if !properties@.contains_key("sink_type"@) {
                fails(r, no_sink_type())
            } else if !can_make(properties@) {
                r == Ok::<Option<SinkConfig>, ErrorCode>(None)
            } else {
                r matches Ok(Some(config)) && is_config(config, named_kind(properties@)->0, properties)
            },
    {
        if let Some(sink_type) = properties.get("sink_type") {
            let name = to_lowercase(sink_type.as_str());
            let complete: bool = match sink_kind(name.as_str()) {
                Some(SinkKind::Kafka) => properties.contains_key("kafka.brokers") && properties.contains_key("kafka.topic"),
                Some(SinkKind::Mysql) => true,
                None => false,
            };
            if !complete {
                return Ok(None);
            }
        }
        match SinkConfig::from_hashmap(properties) {
            Ok(config) => Ok(Some(config)),
            Err(e) => Err(e),
        }
    }
}

/// A sink is made of the options of its kind: those of a Kafka sink are its brokers and its topic, and
/// those of a MySQL sink are all that were given.
pub proof fn law_config_has_the_options(config: SinkConfig, kind: SinkKind, properties: StringMap<String>)
    requires
        is_config(config, kind, properties),
    ensures
        kind == SinkKind::Kafka ==> (config matches SinkConfig::Kafka(c) && c.brokers == properties@["kafka.brokers"@]
            && c.topic == properties@["kafka.topic"@]),
        kind == SinkKind::Mysql ==> config == SinkConfig::Mysql(properties),
{
}

/// A sink is of the kind that its `sink_type` names, whatever the case of the letters; other names name none.
pub proof fn law_kinds_by_name(properties: Map<Seq<char>, String>)
    ensures
        ({
            let name = lowercase(properties["sink_type"@]@);
            &&& named_kind(properties) == Some(SinkKind::Kafka) <==> name == "kafka"@
            &&& named_kind(properties) == Some(SinkKind::Mysql) <==> name == "mysql"@
            &&& named_kind(properties) is None <==> name != "kafka"@ && name != "mysql"@
        }),
{
    reveal_strlit("kafka");
    reveal_strlit("mysql");
    assert("kafka"@[0] != "mysql"@[0]);
}

} // verus!

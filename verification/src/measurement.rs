//! Measurements: one tagged, timestamped set of counters.

use crate::counters::{distinct_names, CounterSet};
use vstd::prelude::*;

verus! {

/// One tag of a measurement.
pub struct Tag {
    pub key: String,
    pub value: String,
}

impl Tag {
    /// The tag as a pair of plain values.
    pub open spec fn model(self) -> (Seq<char>, Seq<char>) {
        (self.key@, self.value@)
    }
}

/// The plain values of `tags`.
pub open spec fn tag_models(tags: Seq<Tag>) -> Seq<(Seq<char>, Seq<char>)> {
    tags.map_values(|t: Tag| t.model())
}

/// One unit of emission: the counters of one brick at one point in time.
pub struct Measurement {
    /// The kind of event.
    pub name: String,
    /// The tags, in the order in which they are written out.
    pub tags: Vec<Tag>,
    /// The counters.
    pub fields: CounterSet,
    /// Seconds since the epoch at which the counters were collected.
    pub timestamp: i64,
}

/// The plain values of a `Measurement`.
pub struct MeasurementModel {
    pub name: Seq<char>,
    pub tags: Seq<(Seq<char>, Seq<char>)>,
    pub fields: Seq<(Seq<char>, int)>,
    pub timestamp: int,
}

impl View for Measurement {
    type V = MeasurementModel;

    open spec fn view(&self) -> MeasurementModel {
        MeasurementModel {
            name: self.name@,
            tags: tag_models(self.tags@),
            fields: self.fields.entries(),
            timestamp: self.timestamp as int,
        }
    }
}

/// The tags of a brick's measurement, in their fixed order.
pub open spec fn brick_tags(hostname: Seq<char>, volume_name: Seq<char>, brick_name: Seq<char>) -> Seq<
    (Seq<char>, Seq<char>),
> {
    seq![
        ("storage_type"@, "gluster"@),
        ("type"@, "brick"@),
        ("hostname"@, hostname),
        ("volume_name"@, volume_name),
        ("brick_name"@, brick_name),
    ]
}

/// No tag of `tags` has an empty value.
pub open spec fn no_empty_tag(tags: Seq<(Seq<char>, Seq<char>)>) -> bool {
    forall|i: int| 0 <= i < tags.len() ==> (#[trigger] tags[i]).1.len() > 0
}

/// The measurement of a brick's counters.
pub open spec fn measurement_of(
    fields: Seq<(Seq<char>, int)>,
    hostname: Seq<char>,
    volume_name: Seq<char>,
    brick_name: Seq<char>,
    timestamp: int,
) -> MeasurementModel {
    MeasurementModel {
        name: "gluster_brick"@,
        tags: brick_tags(hostname, volume_name, brick_name),
        fields,
        timestamp,
    }
}

fn tag(key: &str, value: &str) -> (t: Tag)
    ensures
        t.model() == (key@, value@),
{
    Tag { key: key.to_owned(), value: value.to_owned() }
}

/// Builds the measurement of `counters`, collected at `timestamp` on the host
/// `hostname` from the brick `brick_name` of the volume `volume_name`.
pub fn build_measurement(
    counters: &CounterSet,
    hostname: &str,
    volume_name: &str,
    brick_name: &str,
    timestamp: i64,
) -> (m: Measurement)
    requires
        hostname@.len() > 0,
        volume_name@.len() > 0,
        brick_name@.len() > 0,
    ensures
        m@ == measurement_of(
            counters.entries(),
            hostname@,
            volume_name@,
            brick_name@,
            timestamp as int,
        ),
        distinct_names(m@.fields),
        no_empty_tag(m@.tags),
{
    let mut tags: Vec<Tag> = Vec::new();
    tags.push(tag("storage_type", "gluster"));
    tags.push(tag("type", "brick"));
    tags.push(tag("hostname", hostname));
    tags.push(tag("volume_name", volume_name));
    tags.push(tag("brick_name", brick_name));
    proof {
        reveal_strlit("gluster");
        reveal_strlit("brick");
        assert(tag_models(tags@) == brick_tags(hostname@, volume_name@, brick_name@));
    }
    Measurement { name: "gluster_brick".to_owned(), tags, fields: counters.clone(), timestamp }
}

} // verus!

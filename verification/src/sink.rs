//! The metrics sink: how a measurement is written as one line, where the line
//! is posted to, and what counts as delivered.
//!
//! A line is the measurement's name, the tags, the fields and the timestamp:
//!
//! ```text
//! <name>,<tag>=<value>,... <field>=<count>i,... <timestamp>
//! ```
//!
//! Tags come in their stored order and fields in the order of the counter
//! set. In names and tag values a space or a comma is preceded by a
//! backslash. Counts are integers and carry the suffix `i`.

use crate::config::{SinkConfig, SinkModel};
use crate::counters::CounterSet;
use crate::error::CollectError;
use crate::measurement::{
    brick_tags, build_measurement, measurement_of, tag_models, Measurement, MeasurementModel,
};
use crate::text::{decimal, is_digit, lemma_decimal_digits, push_char, push_decimal};
use vstd::prelude::*;
use vstd::string::StringExecFns;

verus! {

/// The query-string form of second precision.
///
/// Trusted: the body calls `to_string` on influent's `Precision::Seconds`,
/// which yields the one-letter text `s`.
#[verifier::external_body]
fn precision_seconds() -> (r: String)
    ensures
        r@ == seq!['s'],
{
    influent::client::Precision::Seconds.to_string()
}

/// One character as it stands in a line: a space or a comma behind a
/// backslash, any other as it is.
pub open spec fn escape_char(c: char) -> Seq<char> {
    if c == ' ' || c == ',' {
        seq!['\\', c]
    } else {
        seq![c]
    }
}

/// A name or a tag value as it stands in a line.
pub open spec fn escaped(s: Seq<char>) -> Seq<char>
    decreases s.len(),
{
    if s.len() == 0 {
        Seq::empty()
    } else {
        escaped(s.drop_last()) + escape_char(s.last())
    }
}

/// The tag section of a line: each tag behind a comma.
pub open spec fn tags_text(tags: Seq<(Seq<char>, Seq<char>)>) -> Seq<char>
    decreases tags.len(),
{
    if tags.len() == 0 {
        Seq::empty()
    } else {
        tags_text(tags.drop_last()) + seq![','] + escaped(tags.last().0) + seq!['='] + escaped(
            tags.last().1,
        )
    }
}

/// One field as it stands in a line: its name, `=`, its count as a decimal
/// integer, and the suffix `i`.
pub open spec fn field_text(field: (Seq<char>, int)) -> Seq<char> {
    escaped(field.0) + seq!['='] + decimal(field.1) + seq!['i']
}

/// The field section of a line: the first field behind a space, each further
/// one behind a comma; empty where there is no field.
pub open spec fn fields_text(fields: Seq<(Seq<char>, int)>) -> Seq<char>
    decreases fields.len(),
{
    if fields.len() == 0 {
        Seq::empty()
    } else {
        fields_text(fields.drop_last()) + seq![
            if fields.len() == 1 {
                ' '
            } else {
                ','
            },
        ] + field_text(fields.last())
    }
}

/// Each of `fields` behind a comma.
pub open spec fn further_fields_text(fields: Seq<(Seq<char>, int)>) -> Seq<char>
    decreases fields.len(),
{
    if fields.len() == 0 {
        Seq::empty()
    } else {
        further_fields_text(fields.drop_last()) + seq![','] + field_text(fields.last())
    }
}

/// The line that stands for a measurement.
pub open spec fn line_of(m: MeasurementModel) -> Seq<char> {
    escaped(m.name) + tags_text(m.tags) + fields_text(m.fields) + seq![' '] + decimal(m.timestamp)
}

/// The address that lines are posted to.
pub open spec fn write_url_of(base_url: Seq<char>, database: Seq<char>) -> Seq<char> {
    base_url + "/write?db="@ + database + "&precision="@ + seq!['s']
}

/// One write to the backend: a POST of `body` to `url`, under the basic
/// credentials `username` and `password`.
pub struct WriteRequest {
    pub url: String,
    pub username: String,
    pub password: String,
    pub body: String,
}

/// The plain values of a `WriteRequest`.
pub struct WriteModel {
    pub url: Seq<char>,
    pub username: Seq<char>,
    pub password: Seq<char>,
    pub body: Seq<char>,
}

impl View for WriteRequest {
    type V = WriteModel;

    open spec fn view(&self) -> WriteModel {
        WriteModel {
            url: self.url@,
            username: self.username@,
            password: self.password@,
            body: self.body@,
        }
    }
}

/// The write that hands `m` to `sink`.
pub open spec fn request_of(sink: SinkModel, m: MeasurementModel) -> WriteModel {
    WriteModel {
        url: write_url_of(sink.base_url, sink.database),
        username: sink.username,
        password: sink.password,
        body: line_of(m),
    }
}

/// An answer with status `status` means that the write arrived; `None`
/// stands for a request that got no answer.
pub open spec fn delivered(status: Option<u16>) -> bool {
    status matches Some(code) && 200 <= code < 300
}

/// Appends `s` to `out` as it stands in a line.
pub fn push_escaped(out: &mut String, s: &str)
    ensures
        final(out)@ == old(out)@ + escaped(s@),
{
    assert(s@.take(0) == Seq::<char>::empty());
    for c in it: s.chars()
        invariant
            it.seq() == s@,
            out@ == old(out)@ + escaped(s@.take(it.index() as int)),
    {
        let ghost before = out@;
        let ghost done = it.index() as int;
        if c == ' ' || c == ',' {
            push_char(out, '\\');
        }
        push_char(out, c);
        assert(out@ == before + escape_char(c));
        assert(s@.take(done + 1).drop_last() == s@.take(done));
        assert(s@.take(done + 1).last() == c);
    }
    assert(s@.take(s@.len() as int) == s@);
}

/// `s` as it stands in a line.
pub fn escape(s: &str) -> (r: String)
    ensures
        r@ == escaped(s@),
{
    let mut r = String::new();
    push_escaped(&mut r, s);
    r
}

fn push_tags(out: &mut String, m: &Measurement)
    ensures
        final(out)@ == old(out)@ + tags_text(m@.tags),
{
    let ghost tags = m@.tags;
    let mut i: usize = 0;
    assert(tags.take(0) == Seq::<(Seq<char>, Seq<char>)>::empty());
    while i < m.tags.len()
        invariant
            i <= m.tags.len(),
            tags == tag_models(m.tags@),
            out@ == old(out)@ + tags_text(tags.take(i as int)),
        decreases m.tags.len() - i,
    {
        let ghost before = out@;
        push_char(out, ',');
        push_escaped(out, m.tags[i].key.as_str());
        push_char(out, '=');
        push_escaped(out, m.tags[i].value.as_str());
        i += 1;
        assert(tags.take(i as int).drop_last() == tags.take(i - 1));
        assert(tags.take(i as int).last() == tags[i - 1]);
        assert(out@ == before + seq![','] + escaped(tags[i - 1].0) + seq!['='] + escaped(
            tags[i - 1].1,
        ));
    }
    assert(tags.take(m.tags.len() as int) == tags);
}

fn push_fields(out: &mut String, fields: &CounterSet)
    ensures
        final(out)@ == old(out)@ + fields_text(fields.entries()),
{
    let ghost entries = fields.entries();
    let n = fields.len();
    let mut i: usize = 0;
    assert(entries.take(0) == Seq::<(Seq<char>, int)>::empty());
    while i < n
        invariant
            i <= n,
            n == entries.len(),
            entries == fields.entries(),
            out@ == old(out)@ + fields_text(entries.take(i as int)),
        decreases n - i,
    {
        let ghost before = out@;
        let separator = if i == 0 {
            ' '
        } else {
            ','
        };
        push_char(out, separator);
        push_escaped(out, fields.name_at(i).as_str());
        push_char(out, '=');
        push_decimal(out, fields.value_at(i));
        push_char(out, 'i');
        i += 1;
        assert(entries.take(i as int).drop_last() == entries.take(i - 1));
        assert(entries.take(i as int).last() == entries[i - 1]);
        assert(out@ == before + seq![separator] + escaped(entries[i - 1].0) + seq!['=']
            + decimal(entries[i - 1].1) + seq!['i']);
    }
    assert(entries.take(n as int) == entries);
}

/// Writes a measurement as one line.
pub fn serialize_line(m: &Measurement) -> (line: String)
    ensures
        line@ == line_of(m@),
{
    let mut line = String::new();
    push_escaped(&mut line, m.name.as_str());
    push_tags(&mut line, m);
    push_fields(&mut line, &m.fields);
    push_char(&mut line, ' ');
    push_decimal(&mut line, m.timestamp);
    line
}

/// The address that lines for `database` are posted to at `base_url`.
pub fn write_url(base_url: &str, database: &str) -> (url: String)
    ensures
        url@ == write_url_of(base_url@, database@),
{
    let mut url = base_url.to_owned();
    url.append("/write?db=");
    url.append(database);
    url.append("&precision=");
    let precision = precision_seconds();
    url.append(precision.as_str());
    url
}

impl SinkConfig {
    /// The write that hands `m` to this sink.
    pub fn write_request(&self, m: &Measurement) -> (r: WriteRequest)
        ensures
            r@ == request_of(self@, m@),
    {
        WriteRequest {
            url: write_url(self.base_url.as_str(), self.database.as_str()),
            username: self.username.clone(),
            password: self.password.clone(),
            body: serialize_line(m),
        }
    }
}

/// Prepares the write of one brick's counters: builds their measurement,
/// collected at `timestamp`, and addresses its line to `database` at
/// `influx_url`. Sending is the caller's part.
pub fn record_measurement(
    brick_fops: &CounterSet,
    username: &str,
    password: &str,
    influx_url: &str,
    database: &str,
    hostname: &str,
    volume_name: &str,
    brick_name: &str,
    timestamp: i64,
) -> (r: WriteRequest)
    requires
        hostname@.len() > 0,
        volume_name@.len() > 0,
        brick_name@.len() > 0,
    ensures
        r@ == request_of(
            (SinkModel {
                base_url: influx_url@,
                database: database@,
                username: username@,
                password: password@,
            }),
            measurement_of(
                brick_fops.entries(),
                hostname@,
                volume_name@,
                brick_name@,
                timestamp as int,
            ),
        ),
{
    let m = build_measurement(brick_fops, hostname, volume_name, brick_name, timestamp);
    WriteRequest {
        url: write_url(influx_url, database),
        username: username.to_owned(),
        password: password.to_owned(),
        body: serialize_line(&m),
    }
}

/// The field section of a counter set that is not empty, read from the left:
/// a space, the first field, and each further field behind a comma.
pub proof fn lemma_field_section(fields: Seq<(Seq<char>, int)>)
    requires
        fields.len() > 0,
    ensures
        fields_text(fields) == seq![' '] + field_text(fields.first()) + further_fields_text(
            fields.drop_first(),
        ),
    decreases fields.len(),
{
    if fields.len() == 1 {
        assert(fields_text(fields.drop_last()) == Seq::<char>::empty());
        assert(further_fields_text(fields.drop_first()) == Seq::<char>::empty());
        assert(fields.last() == fields.first());
        assert(fields_text(fields) =~= seq![' '] + field_text(fields.first())
            + further_fields_text(fields.drop_first()));
    } else {
        let front = fields.drop_last();
        let rest = fields.drop_first();
        lemma_field_section(front);
        assert(front.drop_first() == rest.drop_last());
        assert(front.first() == fields.first());
        assert(rest.last() == fields.last());
        assert(further_fields_text(rest) == further_fields_text(rest.drop_last()) + seq![',']
            + field_text(rest.last()));
        assert(fields_text(fields) == fields_text(front) + seq![','] + field_text(fields.last()));
        assert(fields_text(fields) =~= seq![' '] + field_text(fields.first())
            + further_fields_text(rest));
    }
}

/// The count of a field is written as an integer: digits only, behind a
/// minus sign where it is negative, so neither a point nor an exponent.
pub proof fn lemma_field_count_is_integer(field: (Seq<char>, int))
    ensures
        field_text(field) == escaped(field.0) + seq!['='] + decimal(field.1) + seq!['i'],
        forall|i: int|
            0 <= i < decimal(field.1).len() ==> {
                ||| is_digit(#[trigger] decimal(field.1)[i])
                ||| (i == 0 && field.1 < 0 && decimal(field.1)[i] == '-')
            },
{
    lemma_decimal_digits(field.1);
}

/// A text without space or comma stands in a line as it is.
pub proof fn lemma_escaped_plain(s: Seq<char>)
    requires
        forall|i: int| 0 <= i < s.len() ==> s[i] != ' ' && s[i] != ',',
    ensures
        escaped(s) == s,
    decreases s.len(),
{
    if s.len() > 0 {
        lemma_escaped_plain(s.drop_last());
        assert(s == s.drop_last().push(s.last()));
    }
}

/// The line of a brick's measurement: the name, then the five tags in their
/// fixed order, then the counters, each an integer with the suffix `i`, then
/// the time.
pub proof fn lemma_brick_line(
    fields: Seq<(Seq<char>, int)>,
    hostname: Seq<char>,
    volume_name: Seq<char>,
    brick_name: Seq<char>,
    timestamp: int,
)
    ensures
        line_of(measurement_of(fields, hostname, volume_name, brick_name, timestamp))
            == "gluster_brick,storage_type=gluster,type=brick,hostname="@ + escaped(hostname)
            + ",volume_name="@ + escaped(volume_name) + ",brick_name="@ + escaped(brick_name)
            + fields_text(fields) + seq![' '] + decimal(timestamp),
{
    reveal_strlit("gluster_brick");
    reveal_strlit("storage_type");
    reveal_strlit("gluster");
    reveal_strlit("type");
    reveal_strlit("brick");
    reveal_strlit("hostname");
    reveal_strlit("volume_name");
    reveal_strlit("brick_name");
    reveal_strlit("gluster_brick,storage_type=gluster,type=brick,hostname=");
    reveal_strlit(",volume_name=");
    reveal_strlit(",brick_name=");
    lemma_escaped_plain("gluster_brick"@);
    lemma_escaped_plain("storage_type"@);
    lemma_escaped_plain("gluster"@);
    lemma_escaped_plain("type"@);
    lemma_escaped_plain("brick"@);
    lemma_escaped_plain("hostname"@);
    lemma_escaped_plain("volume_name"@);
    lemma_escaped_plain("brick_name"@);
    let tags = brick_tags(hostname, volume_name, brick_name);
    let t1 = tags.take(1);
    let t2 = tags.take(2);
    let t3 = tags.take(3);
    let t4 = tags.take(4);
    assert(t1.drop_last() == Seq::<(Seq<char>, Seq<char>)>::empty());
    assert(t2.drop_last() == t1);
    assert(t3.drop_last() == t2);
    assert(t4.drop_last() == t3);
    assert(tags.drop_last() == t4);
    assert(tags_text(t1) == ",storage_type=gluster"@) by {
        reveal_strlit(",storage_type=gluster");
        assert(tags_text(t1.drop_last()) == Seq::<char>::empty());
        assert(tags_text(t1) =~= ",storage_type=gluster"@);
    }
    assert(tags_text(t2) == ",storage_type=gluster,type=brick"@) by {
        reveal_strlit(",storage_type=gluster");
        reveal_strlit(",storage_type=gluster,type=brick");
        assert(tags_text(t2) =~= ",storage_type=gluster,type=brick"@);
    }
    assert(tags_text(t3) == ",storage_type=gluster,type=brick,hostname="@ + escaped(hostname)) by {
        reveal_strlit(",storage_type=gluster,type=brick");
        reveal_strlit(",storage_type=gluster,type=brick,hostname=");
        assert(tags_text(t3) =~= ",storage_type=gluster,type=brick,hostname="@ + escaped(
            hostname,
        ));
    }
    assert(tags_text(t4) == tags_text(t3) + ",volume_name="@ + escaped(volume_name)) by {
        assert(tags_text(t4) =~= tags_text(t3) + ",volume_name="@ + escaped(volume_name));
    }
    assert(tags_text(tags) == tags_text(t4) + ",brick_name="@ + escaped(brick_name)) by {
        assert(tags_text(tags) =~= tags_text(t4) + ",brick_name="@ + escaped(brick_name));
    }
    assert("gluster_brick"@ + ",storage_type=gluster,type=brick,hostname="@
        =~= "gluster_brick,storage_type=gluster,type=brick,hostname="@) by {
        reveal_strlit(",storage_type=gluster,type=brick,hostname=");
    }
    assert(line_of(measurement_of(fields, hostname, volume_name, brick_name, timestamp))
        =~= "gluster_brick,storage_type=gluster,type=brick,hostname="@ + escaped(hostname)
        + ",volume_name="@ + escaped(volume_name) + ",brick_name="@ + escaped(brick_name)
        + fields_text(fields) + seq![' '] + decimal(timestamp));
}

/// Judges the backend's answer to a write: any status from 200 to 299 is a
/// delivery, and anything else, or no answer at all, is a failure.
pub fn delivery_result(status: Option<u16>) -> (r: Result<(), CollectError>)
    ensures
        r is Ok <==> delivered(status),
        r matches Err(e) ==> e == CollectError::DeliveryFailure,
{
    match status {
        Some(code) => if 200 <= code && code < 300 {
            Ok(())
        } else {
            Err(CollectError::DeliveryFailure)
        },
        None => Err(CollectError::DeliveryFailure),
    }
}

} // verus!

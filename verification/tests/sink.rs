use admin_gluster::config::SinkConfig;
use admin_gluster::counters::CounterSet;
use admin_gluster::error::CollectError;
use admin_gluster::measurement::{build_measurement, Measurement, Tag};
use admin_gluster::sink::{
    delivery_result, escape, push_escaped, record_measurement, serialize_line, write_url,
};
use influent::serializer::Serializer;

fn counters(pairs: &[(&str, i64)]) -> CounterSet {
    let mut set = CounterSet::new();
    for (name, value) in pairs {
        set.insert(name.to_string(), *value);
    }
    set
}

fn tag(key: &str, value: &str) -> Tag {
    Tag { key: key.to_string(), value: value.to_string() }
}

#[test]
fn a_line_lists_the_tags_in_their_fixed_order_and_the_counts_as_integers() {
    let set = counters(&[("op_r", 5), ("op_w", 3)]);
    let m = build_measurement(&set, "node1", "vol1", "vol1", 1500000000);
    assert_eq!(
        serialize_line(&m),
        "gluster_brick,storage_type=gluster,type=brick,hostname=node1,volume_name=vol1,brick_name=vol1 op_r=5i,op_w=3i 1500000000"
    );
}

#[test]
fn fields_stand_in_the_order_of_the_counter_set() {
    let set = counters(&[("write", 1), ("read", 2), ("flush", -3)]);
    let m = build_measurement(&set, "h", "v", "b", 7);
    assert_eq!(
        serialize_line(&m),
        "gluster_brick,storage_type=gluster,type=brick,hostname=h,volume_name=v,brick_name=b write=1i,read=2i,flush=-3i 7"
    );
}

#[test]
fn a_line_without_fields_has_no_field_section() {
    let m = Measurement {
        name: "key".to_string(),
        tags: vec![tag("tag", "value")],
        fields: CounterSet::new(),
        timestamp: 10,
    };
    assert_eq!(serialize_line(&m), "key,tag=value 10");
}

#[test]
fn a_line_without_tags_goes_from_the_name_to_the_fields() {
    let m = Measurement {
        name: "key".to_string(),
        tags: Vec::new(),
        fields: counters(&[("i", 10)]),
        timestamp: 1434055562000000000,
    };
    assert_eq!(serialize_line(&m), "key i=10i 1434055562000000000");
}

#[test]
fn spaces_and_commas_are_escaped_in_names_and_tag_values() {
    let m = Measurement {
        name: "my key".to_string(),
        tags: vec![tag("one ,two", "three, four")],
        fields: counters(&[("one, two", 3)]),
        timestamp: 10,
    };
    assert_eq!(
        serialize_line(&m),
        "my\\ key,one\\ \\,two=three\\,\\ four one\\,\\ two=3i 10"
    );
}

#[test]
fn escape_puts_a_backslash_before_spaces_and_commas_only() {
    assert_eq!(escape(" "), "\\ ");
    assert_eq!(escape(","), "\\,");
    assert_eq!(escape("hello, gobwas"), "hello\\,\\ gobwas");
    assert_eq!(escape("a=b\"c\\d"), "a=b\"c\\d");
    assert_eq!(escape(""), "");
    assert_eq!(escape("op_r"), "op_r");
}

#[test]
fn push_escaped_appends_to_what_is_there() {
    let mut out = String::from("k=");
    push_escaped(&mut out, "a b");
    assert_eq!(out, "k=a\\ b");
}

#[test]
fn a_line_is_what_influent_writes_for_the_same_measurement() {
    let m = Measurement {
        name: "gluster brick".to_string(),
        tags: vec![tag("a b", "x,y"), tag("host", "node 1")],
        fields: counters(&[("bytes read", 12), ("op,w", -7), ("z", 0)]),
        timestamp: 1434055562,
    };
    let mut theirs = influent::measurement::Measurement::new("gluster brick");
    theirs.add_tag("a b", "x,y");
    theirs.add_tag("host", "node 1");
    theirs.add_field("bytes read", influent::measurement::Value::Integer(12));
    theirs.add_field("op,w", influent::measurement::Value::Integer(-7));
    theirs.add_field("z", influent::measurement::Value::Integer(0));
    theirs.set_timestamp(1434055562);
    let expected = influent::serializer::line::LineSerializer::new().serialize(&theirs);
    assert_eq!(serialize_line(&m), expected);
}

#[test]
fn the_write_url_names_the_database_and_second_precision() {
    assert_eq!(
        write_url("http://localhost:8086", "glusterfs"),
        "http://localhost:8086/write?db=glusterfs&precision=s"
    );
    assert_eq!(write_url("", ""), "/write?db=&precision=s");
}

#[test]
fn a_write_request_carries_url_credentials_and_line() {
    let sink = SinkConfig {
        base_url: "http://influx:8086".to_string(),
        database: "metrics".to_string(),
        username: "admin".to_string(),
        password: "hunter2".to_string(),
    };
    let m = build_measurement(&counters(&[("op_r", 5)]), "node1", "vol1", "vol1", 42);
    let request = sink.write_request(&m);
    assert_eq!(request.url, "http://influx:8086/write?db=metrics&precision=s");
    assert_eq!(request.username, "admin");
    assert_eq!(request.password, "hunter2");
    assert_eq!(
        request.body,
        "gluster_brick,storage_type=gluster,type=brick,hostname=node1,volume_name=vol1,brick_name=vol1 op_r=5i 42"
    );
}

#[test]
fn record_measurement_prepares_the_write_of_one_counter_set() {
    let set = counters(&[("op_r", 5), ("op_w", 3)]);
    let request = record_measurement(
        &set,
        "user",
        "pass",
        "http://localhost:8086",
        "glusterfs",
        "node1",
        "vol1",
        "vol1",
        1500000000,
    );
    assert_eq!(request.url, "http://localhost:8086/write?db=glusterfs&precision=s");
    assert_eq!(request.username, "user");
    assert_eq!(request.password, "pass");
    assert_eq!(
        request.body,
        "gluster_brick,storage_type=gluster,type=brick,hostname=node1,volume_name=vol1,brick_name=vol1 op_r=5i,op_w=3i 1500000000"
    );
}

#[test]
fn record_measurement_never_writes_an_empty_volume_tag() {
    let request = record_measurement(&counters(&[("a", 1)]), "", "", "u", "d", "h", "gv0", "b1", 0);
    assert!(request.body.contains(",volume_name=gv0,"));
    assert!(!request.body.contains("volume_name=,"));
}

#[test]
fn any_status_from_200_to_299_is_a_delivery() {
    assert_eq!(delivery_result(Some(200)), Ok(()));
    assert_eq!(delivery_result(Some(204)), Ok(()));
    assert_eq!(delivery_result(Some(299)), Ok(()));
}

#[test]
fn any_other_status_is_a_delivery_failure() {
    assert_eq!(delivery_result(Some(199)), Err(CollectError::DeliveryFailure));
    assert_eq!(delivery_result(Some(300)), Err(CollectError::DeliveryFailure));
    assert_eq!(delivery_result(Some(400)), Err(CollectError::DeliveryFailure));
    assert_eq!(delivery_result(Some(404)), Err(CollectError::DeliveryFailure));
    assert_eq!(delivery_result(Some(500)), Err(CollectError::DeliveryFailure));
    assert_eq!(delivery_result(Some(0)), Err(CollectError::DeliveryFailure));
    assert_eq!(delivery_result(Some(u16::MAX)), Err(CollectError::DeliveryFailure));
}

#[test]
fn no_answer_is_a_delivery_failure() {
    assert_eq!(delivery_result(None), Err(CollectError::DeliveryFailure));
}

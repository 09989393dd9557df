use admin_gluster::counters::CounterSet;
use admin_gluster::decodable::{is_decodable, remove_all, DECODER_LIMIT, EXPONENT_RANGE};
use admin_gluster::dump::{
    decode_aggr, decode_inter, decoded_counters, split_and_parse_fops_json, split_dump,
};
use admin_gluster::error::CollectError;

fn count(set: &CounterSet, name: &str) -> Option<i64> {
    set.get(&name.to_string())
}

fn parse(content: &str) -> Result<(CounterSet, CounterSet), CollectError> {
    split_and_parse_fops_json(Some(content), "vol1")
}

#[test]
fn split_dump_restores_the_brace_of_each_half() {
    let (first, second) = split_dump("{\"a\": 1}\n{\"b\": 2}").unwrap();
    assert_eq!(first, "{\"a\": 1}");
    assert_eq!(second, "{\"b\": 2}");
}

#[test]
fn split_dump_keeps_the_text_around_the_boundary() {
    let (first, second) = split_dump("\n{\n\"a\": 1\n}\n{\n\"b\": 2\n}\n").unwrap();
    assert_eq!(first, "\n{\n\"a\": 1\n}");
    assert_eq!(second, "{\n\"b\": 2\n}\n");
}

#[test]
fn split_dump_of_the_bare_boundary_gives_two_braces() {
    let (first, second) = split_dump("}\n{").unwrap();
    assert_eq!(first, "}");
    assert_eq!(second, "{");
}

#[test]
fn split_dump_rejects_a_text_without_boundary() {
    assert_eq!(split_dump("{\"a\": 1}"), Err(CollectError::MalformedDump));
    assert_eq!(split_dump(""), Err(CollectError::MalformedDump));
    assert_eq!(split_dump("{\"a\": 1} {\"b\": 2}"), Err(CollectError::MalformedDump));
    assert_eq!(split_dump("{\"a\": 1}\r\n{\"b\": 2}"), Err(CollectError::MalformedDump));
}

#[test]
fn split_dump_rejects_a_text_with_two_boundaries() {
    assert_eq!(
        split_dump("{\"a\": 1}\n{\"b\": 2}\n{\"c\": 3}"),
        Err(CollectError::MalformedDump)
    );
    assert_eq!(split_dump("}\n{}\n{"), Err(CollectError::MalformedDump));
}

#[test]
fn a_dump_of_two_objects_gives_two_counter_sets() {
    let (aggr, inter) = parse("{\"op_r\": 5.0, \"op_w\": 3.0}\n{\"op_r\": 1.0}").unwrap();
    assert_eq!(aggr.len(), 2);
    assert_eq!(count(&aggr, "op_r"), Some(5));
    assert_eq!(count(&aggr, "op_w"), Some(3));
    assert_eq!(inter.len(), 1);
    assert_eq!(count(&inter, "op_r"), Some(1));
}

#[test]
fn the_names_of_both_sets_are_the_names_of_both_objects() {
    let (aggr, inter) =
        parse("{\"read_1b\": 1, \"write_1b\": 2}\n{\"read_1b_per_sec\": 3, \"write_1b\": 4}")
            .unwrap();
    let mut names: Vec<String> = Vec::new();
    for i in 0..aggr.len() {
        names.push(aggr.name_at(i).clone());
    }
    for i in 0..inter.len() {
        names.push(inter.name_at(i).clone());
    }
    names.sort();
    names.dedup();
    assert_eq!(names, vec!["read_1b", "read_1b_per_sec", "write_1b"]);
}

#[test]
fn counts_are_cut_to_their_integer_part() {
    let (aggr, inter) = parse("{\"a\": 5.9, \"b\": 0.5}\n{\"c\": -2.7, \"d\": 1e3}").unwrap();
    assert_eq!(count(&aggr, "a"), Some(5));
    assert_eq!(count(&aggr, "b"), Some(0));
    assert_eq!(count(&inter, "c"), Some(-2));
    assert_eq!(count(&inter, "d"), Some(1000));
}

#[test]
fn counts_beyond_the_integers_stop_at_their_ends() {
    let (aggr, inter) = parse("{\"a\": 1e30, \"b\": -1e30}\n{\"c\": 9223372036854775807}").unwrap();
    assert_eq!(count(&aggr, "a"), Some(i64::MAX));
    assert_eq!(count(&aggr, "b"), Some(i64::MIN));
    assert_eq!(count(&inter, "c"), Some(i64::MAX));
}

#[test]
fn numbers_written_as_text_are_read_as_numbers() {
    let (aggr, inter) = parse("{\"a\": \"12\", \"b\": \"0\"}\n{\"c\": \"0.00\", \"d\": \"7.9\"}").unwrap();
    assert_eq!(count(&aggr, "a"), Some(12));
    assert_eq!(count(&aggr, "b"), Some(0));
    assert_eq!(count(&inter, "c"), Some(0));
    assert_eq!(count(&inter, "d"), Some(7));
}

#[test]
fn a_count_that_is_no_number_makes_the_dump_malformed() {
    assert!(matches!(parse("{\"a\": \"many\"}\n{\"b\": 2}"), Err(CollectError::MalformedDump)));
    assert!(matches!(parse("{\"a\": 1}\n{\"b\": [2]}"), Err(CollectError::MalformedDump)));
    assert!(matches!(parse("{\"a\": 1}\n{\"b\": null}"), Err(CollectError::MalformedDump)));
}

#[test]
fn the_brick_prefix_is_taken_off_the_names() {
    let content = "{\n\"gluster.brick.vol1.aggr.read_1b\": 7,\n\"gluster.brick.vol1.aggr.write_1b\": 8\n}\n{\n\"gluster.brick.vol1.inter.read_1b_per_sec\": 9\n}\n";
    let (aggr, inter) = parse(content).unwrap();
    assert_eq!(aggr.len(), 2);
    assert_eq!(count(&aggr, "read_1b"), Some(7));
    assert_eq!(count(&aggr, "write_1b"), Some(8));
    assert_eq!(inter.len(), 1);
    assert_eq!(count(&inter, "read_1b_per_sec"), Some(9));
}

#[test]
fn the_prefix_of_another_brick_stays_on_the_names() {
    let content = "{\"gluster.brick.vol2.aggr.read_1b\": 7}\n{\"gluster.brick.vol2.inter.read_1b\": 9}";
    let (aggr, inter) = parse(content).unwrap();
    assert_eq!(count(&aggr, "gluster.brick.vol2.aggr.read_1b"), Some(7));
    assert_eq!(count(&inter, "gluster.brick.vol2.inter.read_1b"), Some(9));
}

#[test]
fn empty_objects_give_empty_counter_sets() {
    let (aggr, inter) = parse("{}\n{}").unwrap();
    assert_eq!(aggr.len(), 0);
    assert_eq!(inter.len(), 0);
}

#[test]
fn a_file_that_could_not_be_read_is_an_io_error() {
    assert!(matches!(
        split_and_parse_fops_json(None, "vol1"),
        Err(CollectError::IoError)
    ));
}

#[test]
fn a_dump_without_boundary_is_malformed() {
    assert!(matches!(parse("{\"a\": 1}"), Err(CollectError::MalformedDump)));
    assert!(matches!(parse(""), Err(CollectError::MalformedDump)));
}

#[test]
fn a_dump_with_two_boundaries_is_malformed() {
    assert!(matches!(
        parse("{\"a\": 1}\n{\"b\": 2}\n{\"c\": 3}"),
        Err(CollectError::MalformedDump)
    ));
}

#[test]
fn a_dump_whose_first_object_does_not_decode_is_malformed() {
    assert!(matches!(parse("{\"a\": }\n{\"b\": 2}"), Err(CollectError::MalformedDump)));
    assert!(matches!(parse("[1]}\n{\"b\": 2}"), Err(CollectError::MalformedDump)));
}

#[test]
fn a_dump_whose_second_object_does_not_decode_is_malformed() {
    assert!(matches!(parse("{\"a\": 1}\n{\"b\": "), Err(CollectError::MalformedDump)));
    assert!(matches!(parse("{\"a\": 1}\n{\"b\": 2"), Err(CollectError::MalformedDump)));
}

#[test]
fn a_boundary_inside_a_quoted_name_makes_the_dump_malformed() {
    assert!(matches!(
        parse("{\"a}\n{b\": 1}\n{\"c\": 2}"),
        Err(CollectError::MalformedDump)
    ));
}

#[test]
fn decoded_counters_turns_a_decoding_error_into_a_malformed_dump() {
    let r = decoded_counters(Err(gluster::GlusterError::NoVolumesPresent));
    assert!(matches!(r, Err(CollectError::MalformedDump)));
}

#[test]
fn decoded_counters_keeps_the_pairs_and_lets_the_later_one_win() {
    let pairs = vec![("a".to_string(), 1), ("b".to_string(), 2), ("a".to_string(), 3)];
    let set = decoded_counters(Ok(pairs)).unwrap();
    assert_eq!(set.len(), 2);
    assert_eq!(set.name_at(0), "a");
    assert_eq!(set.value_at(0), 3);
    assert_eq!(set.name_at(1), "b");
    assert_eq!(set.value_at(1), 2);
}

#[test]
fn a_number_whose_exponent_leaves_the_range_is_malformed_and_never_decoded() {
    assert!(matches!(
        parse("{\"a\": 0.5e-2147483647}\n{}"),
        Err(CollectError::MalformedDump)
    ));
    assert!(matches!(
        parse("{}\n{\"a\": 0.5e-2147483647}"),
        Err(CollectError::MalformedDump)
    ));
    assert!(matches!(
        parse("{\"a\": 0.50E-2147483646}\n{}"),
        Err(CollectError::MalformedDump)
    ));
    assert!(matches!(
        parse("{\"a\": -12.000e-002147483645}\n{}"),
        Err(CollectError::MalformedDump)
    ));
}

#[test]
fn a_number_whose_exponent_stays_in_range_is_decoded() {
    let (aggr, inter) = parse(
        "{\"a\": 5e-999999999, \"b\": 2e000000001, \"c\": 1E+0000000001, \"d\": 0.5e-2147483646}\n{\"e\": 0.5e+000000001, \"f\": 5e-2147483647, \"g\": 0.5e-2147483648, \"h\": 0.5e-99999999999}",
    )
    .unwrap();
    assert_eq!(count(&aggr, "a"), Some(0));
    assert_eq!(count(&aggr, "b"), Some(20));
    assert_eq!(count(&aggr, "c"), Some(10));
    assert_eq!(count(&aggr, "d"), Some(0));
    assert_eq!(count(&inter, "e"), Some(5));
    assert_eq!(count(&inter, "f"), Some(0));
    assert_eq!(count(&inter, "g"), Some(0));
    assert_eq!(count(&inter, "h"), Some(0));
}

#[test]
fn a_positive_exponent_beyond_all_numbers_is_the_decoder_s_to_turn_down() {
    assert!(matches!(parse("{\"a\": 1e1234567890}\n{}"), Err(CollectError::MalformedDump)));
    assert!(matches!(
        parse("{\"a\": 1e1gluster.brick.vol1.aggr.000000000}\n{}"),
        Err(CollectError::MalformedDump)
    ));
}

#[test]
fn what_stands_between_quotes_never_keeps_a_dump_from_the_decoder() {
    let (aggr, inter) = parse("{\"e0123456789\":1}\n{\"b\":2}").unwrap();
    assert_eq!(count(&aggr, "e0123456789"), Some(1));
    assert_eq!(count(&inter, "b"), Some(2));
    let (aggr, inter) =
        parse("{\"0.5e-2147483647\": \"0.5e-2147483647\"}\n{\"x\\\"0.5e-2147483647\": 3}").unwrap();
    assert_eq!(count(&aggr, "0.5e-2147483647"), Some(0));
    assert_eq!(count(&inter, "x\"0.5e-2147483647"), Some(3));
}

#[test]
fn a_brick_whose_name_ends_in_e_and_digits_is_decoded() {
    let content = "{\"gluster.brick.archive2024010100.aggr.op_r\":5}\n{\"gluster.brick.archive2024010100.inter.op_w\":3}";
    let (aggr, inter) = split_and_parse_fops_json(Some(content), "archive2024010100").unwrap();
    assert_eq!(count(&aggr, "op_r"), Some(5));
    assert_eq!(count(&inter, "op_w"), Some(3));
}

#[test]
fn a_name_that_starts_with_a_digit_behind_the_prefix_is_decoded() {
    let (aggr, inter) = parse(
        "{\"gluster.brick.vol1.aggr.4k\": 1}\n{\"gluster.brick.vol1.inter.-x\": 2, \"gluster.brick.vol1.aggr.4k\": 3}",
    )
    .unwrap();
    assert_eq!(count(&aggr, "4k"), Some(1));
    assert_eq!(count(&inter, "-x"), Some(2));
    assert_eq!(count(&inter, "gluster.brick.vol1.aggr.4k"), Some(3));
}

#[test]
fn the_text_is_tested_as_the_decoder_will_see_it() {
    assert!(matches!(
        parse("{\"a\": 0.5e-2gluster.brick.vol1.aggr.147483647}\n{}"),
        Err(CollectError::MalformedDump)
    ));
    assert!(matches!(
        parse("{}\n{\"a\": 0.gluster.brick.vol1.inter.5e-2147483647}"),
        Err(CollectError::MalformedDump)
    ));
    let (aggr, _) = parse("{\"a\": 0.5e-2gluster.brick.vol1.inter.147483647}\n{}")
        .map(|(a, i)| (Some(a), i))
        .unwrap_or((None, admin_gluster::counters::CounterSet::new()));
    assert!(aggr.is_none());
}

#[test]
fn is_decodable_looks_at_negative_exponents_outside_quotes_only() {
    assert!(is_decodable("", "p"));
    assert!(is_decodable("{\"a\": 1e999999999}", "gluster.brick.vol1.aggr."));
    assert!(is_decodable("e1234567890", "p"));
    assert!(is_decodable("E+2147483647", "p"));
    assert!(is_decodable("1.5e2147483647", "p"));
    assert!(is_decodable("5e-2147483647", "p"));
    assert!(is_decodable("1.5e-2147483646", "p"));
    assert!(is_decodable("1.5e-2147483648", "p"));
    assert!(is_decodable("1.5e-99999999999999999999999", "p"));
    assert!(is_decodable("\"1.5e-2147483647\"", "p"));
    assert!(is_decodable("\"a\\\"1.5e-2147483647\"", "p"));
    assert!(!is_decodable("1.5e-2147483647", "p"));
    assert!(!is_decodable("1.5E-2147483647", "p"));
    assert!(!is_decodable("1.5e-0002147483647", "p"));
    assert!(!is_decodable("1.50e-2147483646", "p"));
    assert!(!is_decodable("\"a\\\\\"1.5e-2147483647", "p"));
    assert!(!is_decodable("\"a\": 1.5e-2147483647", "p"));
    assert!(!is_decodable("1.5e-2p147483647", "p"));
    assert!(!is_decodable("1p.5e-2147483647", "p"));
    assert!(is_decodable("1.5e-2147483647", "5e"));
    assert!(is_decodable("1.5e-2147483647", "."));
}

#[test]
fn remove_all_takes_matches_off_from_the_left() {
    let chars = |s: &str| s.chars().collect::<Vec<char>>();
    for (text, pat) in [
        ("", "p"),
        ("abc", ""),
        ("abcabc", "bc"),
        ("aaa", "aa"),
        ("ababa", "aba"),
        ("gluster.brick.v.aggluster.brick.v.aggr.gr.x", "gluster.brick.v.aggr."),
        ("xyz", "xyz"),
        ("xy", "xyz"),
        ("n\u{e9}e\u{e9}", "\u{e9}"),
    ] {
        assert_eq!(
            remove_all(&chars(text), &chars(pat)).into_iter().collect::<String>(),
            text.replace(pat, "")
        );
    }
}

#[test]
fn the_limits_of_the_decoder_are_powers_of_two() {
    assert_eq!(DECODER_LIMIT, 1 << 30);
    assert_eq!(EXPONENT_RANGE, 1 << 31);
}

#[test]
fn decode_aggr_takes_the_aggregate_prefix_off_the_names() {
    let set = decode_aggr("{\"gluster.brick.vol1.aggr.read_1b\": 7.5}", "vol1").unwrap();
    assert_eq!(set.len(), 1);
    assert_eq!(count(&set, "read_1b"), Some(7));
    assert_eq!(
        decode_aggr("{\"a\": 0.1e-2147483647}", "vol1").err(),
        Some(CollectError::MalformedDump)
    );
    assert_eq!(decode_aggr("{", "vol1").err(), Some(CollectError::MalformedDump));
}

#[test]
fn decode_inter_takes_the_per_translator_prefix_off_the_names() {
    let set = decode_inter("{\"gluster.brick.vol1.inter.read_1b\": \"2\"}", "vol1").unwrap();
    assert_eq!(set.len(), 1);
    assert_eq!(count(&set, "read_1b"), Some(2));
    assert_eq!(
        decode_inter("{\"a\": 0.1e-2147483647}", "vol1").err(),
        Some(CollectError::MalformedDump)
    );
    assert_eq!(decode_inter("[]", "vol1").err(), Some(CollectError::MalformedDump));
}

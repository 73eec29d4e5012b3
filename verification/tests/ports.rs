use port_scanner::ports::{parse_port_number, parse_ports, port_range, ports_from_items, select_ports, top_100};

fn chars(s: &str) -> Vec<char> {
    s.chars().collect()
}

#[test]
fn single_ports_are_listed_sorted() {
    assert_eq!(parse_ports("22,80,443"), vec![22, 80, 443]);
    assert_eq!(parse_ports("443,22,80"), vec![22, 80, 443]);
}

#[test]
fn range_is_inclusive() {
    assert_eq!(parse_ports("1-5"), vec![1, 2, 3, 4, 5]);
    assert_eq!(parse_ports("1-1000").len(), 1000);
}

#[test]
fn default_range_has_every_port() {
    let ports = parse_ports("1-1024");
    assert_eq!(ports.len(), 1024);
    assert_eq!(ports[0], 1);
    assert_eq!(ports[1023], 1024);
}

#[test]
fn mixed_list_is_merged_and_deduplicated() {
    assert_eq!(parse_ports("22,80,443,440-445"), vec![22, 80, 440, 441, 442, 443, 444, 445]);
    assert_eq!(parse_ports("5,3-6,5,1"), vec![1, 3, 4, 5, 6]);
}

#[test]
fn items_are_trimmed() {
    assert_eq!(parse_ports(" 22 , 80\t,\n443 "), vec![22, 80, 443]);
    // A space inside a range item is not trimmed away.
    assert_eq!(parse_ports("1 - 3"), Vec::<u16>::new());
    // Unicode white space counts too.
    assert_eq!(parse_ports("\u{3000}7\u{a0}"), vec![7]);
}

#[test]
fn invalid_items_are_skipped() {
    assert_eq!(parse_ports("abc,22,70000,-5,5-,1-2-3,+,,"), vec![22]);
    assert_eq!(parse_ports(""), Vec::<u16>::new());
}

#[test]
fn reversed_range_is_empty() {
    assert_eq!(parse_ports("10-5"), Vec::<u16>::new());
    assert_eq!(parse_ports("10-5,7"), vec![7]);
}

#[test]
fn plus_sign_and_leading_zeros_are_accepted() {
    assert_eq!(parse_ports("+80,0022"), vec![22, 80]);
    assert_eq!(parse_ports("+1-+3"), vec![1, 2, 3]);
}

#[test]
fn bounds_of_the_port_space() {
    assert_eq!(parse_ports("0,65535"), vec![0, 65535]);
    assert_eq!(parse_ports("65536"), Vec::<u16>::new());
    assert_eq!(parse_ports("65530-65535"), vec![65530, 65531, 65532, 65533, 65534, 65535]);
    assert_eq!(parse_ports("0-65535").len(), 65536);
}

#[test]
fn top_100_in_any_case() {
    let top = top_100();
    assert_eq!(top.len(), 100);
    assert_eq!(top[0], 7);
    assert_eq!(top[99], 5060);
    assert_eq!(parse_ports("top-100"), top);
    assert_eq!(parse_ports("TOP-100"), top);
    assert_eq!(parse_ports("Top-100"), top);
    // Only the whole string selects the list.
    assert_eq!(parse_ports(" top-100"), Vec::<u16>::new());
    assert_eq!(parse_ports("top-100,22"), vec![22]);
}

#[test]
fn top_100_is_sorted_without_duplicates() {
    let top = top_100();
    for w in top.windows(2) {
        assert!(w[0] < w[1]);
    }
}

#[test]
fn join_of_two_lists_names_the_union() {
    let a = parse_ports("20-25,80");
    let b = parse_ports("22,443");
    let mut union: Vec<u16> = a.iter().chain(b.iter()).copied().collect();
    union.sort();
    union.dedup();
    assert_eq!(parse_ports("20-25,80,22,443"), union);
    assert_eq!(parse_ports("22,443,20-25,80"), union);
}

#[test]
fn select_ports_uses_the_given_lower_case_form() {
    assert_eq!(select_ports("whatever", "top-100"), top_100());
    assert_eq!(select_ports("22", "22"), vec![22]);
}

#[test]
fn port_number_parsing() {
    assert_eq!(parse_port_number(&chars("80")), Some(80));
    assert_eq!(parse_port_number(&chars("+80")), Some(80));
    assert_eq!(parse_port_number(&chars("00080")), Some(80));
    assert_eq!(parse_port_number(&chars("65535")), Some(65535));
    assert_eq!(parse_port_number(&chars("65536")), None);
    assert_eq!(parse_port_number(&chars("99999999999")), None);
    assert_eq!(parse_port_number(&chars("")), None);
    assert_eq!(parse_port_number(&chars("+")), None);
    assert_eq!(parse_port_number(&chars("-1")), None);
    assert_eq!(parse_port_number(&chars("8a")), None);
    assert_eq!(parse_port_number(&chars(" 8")), None);
    assert_eq!(parse_port_number(&chars("٣")), None);
}

#[test]
fn item_ranges() {
    assert_eq!(port_range(&chars("22")), Some((22, 22)));
    assert_eq!(port_range(&chars("1-1000")), Some((1, 1000)));
    assert_eq!(port_range(&chars("9-3")), Some((9, 3)));
    assert_eq!(port_range(&chars("1-2-3")), None);
    assert_eq!(port_range(&chars("-3")), None);
    assert_eq!(port_range(&chars("x")), None);
}

#[test]
fn ports_from_trimmed_items() {
    let items = vec![chars("3-4"), chars("1"), chars("bad"), chars("4")];
    assert_eq!(ports_from_items(&items), vec![1, 3, 4]);
    assert_eq!(ports_from_items(&Vec::new()), Vec::<u16>::new());
}

#[test]
fn reparsing_a_rendered_result_gives_it_back() {
    for spec in ["22,80,443", "1-20,443,8000-8010", "top-100", "65530-65535,0", ""] {
        let ports = parse_ports(spec);
        let rendered = ports.iter().map(|p| p.to_string()).collect::<Vec<String>>().join(",");
        assert_eq!(parse_ports(&rendered), ports);
    }
}

#[test]
fn join_in_either_order() {
    let a = "1-3,9";
    let b = "2,10-11";
    assert_eq!(parse_ports(&format!("{},{}", a, b)), vec![1, 2, 3, 9, 10, 11]);
    assert_eq!(parse_ports(&format!("{},{}", a, b)), parse_ports(&format!("{},{}", b, a)));
}

use madproxy::hostname::{find_first, normalize};

#[test]
fn normalize_strips_the_multiplexer_tail() {
    assert_eq!(normalize("mc.host///1.2.3.4"), "mc.host");
    assert_eq!(normalize("a///198.51.100.7"), "a");
    assert_eq!(normalize("a///b///c"), "a");
    assert_eq!(normalize("///1.2.3.4"), "");
    assert_eq!(normalize("a////b"), "a");
}

#[test]
fn normalize_strips_forge_markers() {
    assert_eq!(normalize("mc.hostFML2"), "mc.host");
    assert_eq!(normalize("mc.hostFML"), "mc.host");
    assert_eq!(normalize("mc.host\0FML2\0"), "mc.host\0");
    assert_eq!(normalize("mc.host\0FML\0"), "mc.host\0");
    assert_eq!(normalize("FMLmc.hostFML2"), "FMLmc.host");
    assert_eq!(normalize("FML2mc.hostFML2"), "mc.hostFML2");
    assert_eq!(normalize("FMLmc.hostFML"), "mc.hostFML");
}

#[test]
fn normalize_strips_one_trailing_nul() {
    assert_eq!(normalize("mc.host\0"), "mc.host");
    assert_eq!(normalize("mc.host\0\0"), "mc.host\0");
    assert_eq!(normalize("\0"), "");
    assert_eq!(normalize("mc\0host"), "mc\0host");
}

#[test]
fn normalize_applies_the_rewrites_in_order() {
    assert_eq!(normalize("mc.hostFML2\0///10.0.0.1"), "mc.host");
    assert_eq!(normalize("mc.host\0FML\0"), "mc.host\0");
    assert_eq!(normalize("mc.host///FML"), "mc.host");
    assert_eq!(normalize("//FML/rest"), "///rest");
}

#[test]
fn normalize_leaves_plain_names() {
    for name in ["", "a", "mc.example.com", "MC.Example.COM", "fml2.example", "a//b", "h\u{e4}st"] {
        assert_eq!(normalize(name), name);
    }
    assert_ne!(normalize("MC.HOST"), normalize("mc.host"));
}

#[test]
fn normalize_twice_is_normalize_once() {
    for name in [
        "mc.host///1.2.3.4",
        "mc.hostFML2",
        "mc.hostFML",
        "mc.host\0",
        "mc.hostFML2\0///1.2.3.4",
        "a",
        "",
        "a///b///c",
    ] {
        let once = normalize(name);
        assert_eq!(normalize(&once), once);
    }
}

#[test]
fn normalize_can_uncover_a_marker() {
    assert_eq!(normalize("FFMLML"), "FML");
    assert_eq!(normalize(&normalize("FFMLML")), "");
    assert_eq!(normalize("a\0\0"), "a\0");
    assert_eq!(normalize(&normalize("a\0\0")), "a");
    assert_eq!(normalize("mc.host\0FML2\0///1.2.3.4"), "mc.host\0");
    assert_eq!(normalize(&normalize("mc.host\0FML2\0///1.2.3.4")), "mc.host");
    assert_eq!(normalize("//FML/"), "///");
    assert_eq!(normalize(&normalize("//FML/")), "");
}

#[test]
fn find_first_gives_the_least_index() {
    let text: Vec<char> = "abcabc".chars().collect();
    let bc: Vec<char> = "bc".chars().collect();
    let ca: Vec<char> = "ca".chars().collect();
    let cc: Vec<char> = "cc".chars().collect();
    let long: Vec<char> = "abcabca".chars().collect();
    assert_eq!(find_first(&text, &bc), Some(1));
    assert_eq!(find_first(&text, &ca), Some(2));
    assert_eq!(find_first(&text, &cc), None);
    assert_eq!(find_first(&text, &long), None);
    assert_eq!(find_first(&text, &text), Some(0));
    assert_eq!(find_first(&text, &Vec::new()), Some(0));
    assert_eq!(find_first(&Vec::new(), &bc), None);
}

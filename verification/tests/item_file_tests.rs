#![allow(non_snake_case)]
use webserve::photos_handler::item_file::{Item, ItemFile};

fn lines(ls: &[&str]) -> Vec<String> {
    ls.iter().map(|l| l.to_string()).collect()
}

#[test]
fn test_Item1() {
    let mut item = Item::new();
    let _ = &mut item;
}

#[test]
fn empty_descriptor_yields_no_items() {
    let mut f = ItemFile::new();
    f.load_from_lines(&lines(&[]));
    assert_eq!(f.get_final_baked_items().len(), 0);
}

#[test]
fn common_only_descriptor_yields_no_items() {
    let mut f = ItemFile::new();
    f.load_from_lines(&lines(&["sourceType: slr", "basePath: .", "# a comment", ""]));
    assert_eq!(f.get_final_baked_items().len(), 0);
}

#[test]
fn override_reshapes_common() {
    let mut f = ItemFile::new();
    f.load_from_lines(&lines(&[
        "sourceType: slr",
        "* ",
        "\tres-0-img: a.jpg",
        "\tres-0: 100,50",
        "sourceType: drone",
        "* ",
        "\tres-0-img: b.jpg",
        "\tres-0: 100,50",
    ]));
    let items = f.get_final_baked_items();
    assert_eq!(items.len(), 2);
    assert_eq!(items[0].get_value("res-0-img"), "a.jpg");
    assert_eq!(items[0].get_value("sourceType"), "slr");
    assert_eq!(items[1].get_value("res-0-img"), "b.jpg");
    assert_eq!(items[1].get_value("sourceType"), "drone");
}

#[test]
fn set_valued_combine() {
    let mut f = ItemFile::new();
    f.load_from_lines(&lines(&["tags: x, y", "* ", "\ttags: z", "\tres-0-img: a.jpg"]));
    let items = f.get_final_baked_items();
    assert_eq!(items.len(), 1);
    assert_eq!(items[0].get_value("tags"), "x, y, z");
}

#[test]
fn plain_item_value_replaces_common() {
    let mut f = ItemFile::new();
    f.load_from_lines(&lines(&["permission: private", "* ", "\tpermission: authBasic"]));
    let items = f.get_final_baked_items();
    assert_eq!(items.len(), 1);
    assert_eq!(items[0].get_value("permission"), "authBasic");
}

#[test]
fn malformed_lines_are_skipped() {
    let mut f = ItemFile::new();
    f.load_from_lines(&lines(&["no separator here", "* ", "\talso bad", "\tok: fine", "\t : empty key"]));
    let items = f.get_final_baked_items();
    assert_eq!(items.len(), 1);
    assert_eq!(items[0].get_value("ok"), "fine");
    assert!(!items[0].has_value(""));
}

#[test]
fn baking_twice_yields_equal_items() {
    let mut f = ItemFile::new();
    f.load_from_lines(&lines(&[
        "tags: x",
        "* ",
        "\tres-0-img: a.jpg",
        "sourceType: drone",
        "* ",
        "\tres-0-img: b.jpg",
        "\ttags: y",
    ]));
    let first = f.get_final_baked_items();
    let second = f.get_final_baked_items();
    assert_eq!(first.len(), second.len());
    for (a, b) in first.iter().zip(second.iter()) {
        for key in ["res-0-img", "sourceType", "tags"] {
            assert_eq!(a.get_value(key), b.get_value(key));
            assert_eq!(a.has_value(key), b.has_value(key));
        }
    }
}

#[test]
fn item_lookup() {
    let mut item = Item::new();
    item.values.insert("basePath".to_string(), "/home/test1/".to_string());
    assert!(item.has_value("basePath"));
    assert!(!item.has_value("other"));
    assert_eq!(item.get_value("basePath"), "/home/test1/");
    assert_eq!(item.get_value("other"), "");
}

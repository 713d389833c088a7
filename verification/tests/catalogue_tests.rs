use webserve::photos_handler::item_file::ItemFile;
use webserve::photos_handler::photo_catalogue::{primary_image_full_path, PhotoCatalogue};
use webserve::photos_handler::photo_item::{DateTime, PhotoItem, SourceType};

fn lines(ls: &[&str]) -> Vec<String> {
    ls.iter().map(|l| l.to_string()).collect()
}

/// A minimal TIFF byte stream whose Exif block carries a DateTimeDigitized
/// of 2020:01:02 03:04:05.
fn tiff_with_datetime_digitized() -> Vec<u8> {
    let mut b: Vec<u8> = Vec::new();
    // header: little endian, magic 42, first IFD at offset 8
    b.extend_from_slice(&[0x49, 0x49, 0x2a, 0x00, 0x08, 0x00, 0x00, 0x00]);
    // IFD0: one entry, the Exif IFD pointer (tag 0x8769, LONG, 1) -> offset 26
    b.extend_from_slice(&[0x01, 0x00]);
    b.extend_from_slice(&[0x69, 0x87, 0x04, 0x00, 0x01, 0x00, 0x00, 0x00, 0x1a, 0x00, 0x00, 0x00]);
    b.extend_from_slice(&[0x00, 0x00, 0x00, 0x00]);
    // Exif IFD at 26: one entry, DateTimeDigitized (tag 0x9004, ASCII, 20) -> offset 44
    b.extend_from_slice(&[0x01, 0x00]);
    b.extend_from_slice(&[0x04, 0x90, 0x02, 0x00, 0x14, 0x00, 0x00, 0x00, 0x2c, 0x00, 0x00, 0x00]);
    b.extend_from_slice(&[0x00, 0x00, 0x00, 0x00]);
    // the value at 44
    b.extend_from_slice(b"2020:01:02 03:04:05\0");
    b
}

#[test]
fn basic_date_parses_and_validates() {
    let mut p = PhotoItem::new();
    p.set_basic_date(&"2020-05-17".to_string());
    assert_eq!(
        p.time_taken,
        Some(DateTime { year: 2020, month: 5, day: 17, hour: 1, minute: 1, second: 1 })
    );
    let mut q = PhotoItem::new();
    q.set_basic_date(&"2015-02-30".to_string());
    assert_eq!(q.time_taken, None);
    q.set_basic_date(&"2015-02-28".to_string());
    q.set_basic_date(&"nonsense".to_string());
    assert_eq!(
        q.time_taken,
        Some(DateTime { year: 2015, month: 2, day: 28, hour: 1, minute: 1, second: 1 })
    );
}

#[test]
fn exif_datetime_parses() {
    let mut p = PhotoItem::new();
    p.set_info_from_exif("2020-01-02 03:04:05");
    assert_eq!(
        p.time_taken,
        Some(DateTime { year: 2020, month: 1, day: 2, hour: 3, minute: 4, second: 5 })
    );
}

#[test]
fn item_processing_builds_photos() {
    let mut f = ItemFile::new();
    f.load_from_lines(&lines(&[
        "sourceType: slr",
        "* ",
        "\tres-0-img: a.jpg",
        "\tres-0: 100,50",
        "\tdate: 2019-06-01",
        "sourceType: drone",
        "* ",
        "\tres-0-img: b.jpg",
        "\tres-0: 100,50",
        "\tdate: 2020-01-01",
    ]));
    let items = f.get_final_baked_items();
    assert_eq!(items.len(), 2);
    let mut cat = PhotoCatalogue::new();
    let root = "/photos".to_string();
    let dir = "/photos/set1".to_string();
    let junk = vec![0u8, 1, 2];
    for item in &items {
        assert!(primary_image_full_path(&root, &dir, item).is_some());
        cat.process_item_file_item(&root, &dir, item, Some(&junk));
    }
    assert_eq!(cat.items.len(), 2);
    assert_eq!(cat.items[0].source_type, SourceType::SLR);
    assert_eq!(cat.items[1].source_type, SourceType::Drone);
    assert_eq!(cat.items[0].representations.len(), 1);
    let rep = cat.items[0].representations.rep_at(0);
    assert_eq!(rep.relative_file_path, "/photos/a.jpg");
    assert_eq!(rep.width, 100);
    assert_eq!(rep.height, 50);
}

#[test]
fn missing_primary_image_drops_the_photo() {
    let mut f = ItemFile::new();
    f.load_from_lines(&lines(&["* ", "\tres-0-img: a.jpg", "\tres-0: 100,50"]));
    let items = f.get_final_baked_items();
    let mut cat = PhotoCatalogue::new();
    cat.process_item_file_item(&"/p".to_string(), &"/p/d".to_string(), &items[0], None);
    assert_eq!(cat.items.len(), 0);
}

#[test]
fn item_without_primary_attribute_is_ignored() {
    let mut f = ItemFile::new();
    f.load_from_lines(&lines(&["* ", "\tcaption: no image here"]));
    let items = f.get_final_baked_items();
    let mut cat = PhotoCatalogue::new();
    let junk = vec![0u8];
    cat.process_item_file_item(&"/p".to_string(), &"/p/d".to_string(), &items[0], Some(&junk));
    assert_eq!(cat.items.len(), 0);
}

#[test]
fn exif_time_overrides_descriptor_date() {
    let mut f = ItemFile::new();
    f.load_from_lines(&lines(&[
        "* ",
        "\tres-0-img: a.jpg",
        "\tres-0: 100,50",
        "\tdate: 2001-01-01",
    ]));
    let items = f.get_final_baked_items();
    let mut cat = PhotoCatalogue::new();
    let tiff = tiff_with_datetime_digitized();
    cat.process_item_file_item(&"/p".to_string(), &"/p/d".to_string(), &items[0], Some(&tiff));
    assert_eq!(cat.items.len(), 1);
    assert_eq!(
        cat.items[0].time_taken,
        Some(DateTime { year: 2020, month: 1, day: 2, hour: 3, minute: 4, second: 5 })
    );
}

#[test]
fn base_path_resolution() {
    let mut f = ItemFile::new();
    f.load_from_lines(&lines(&[
        "basePath: .",
        "* ",
        "\tres-0-img: a.jpg",
        "\tres-0: 10,10",
    ]));
    let items = f.get_final_baked_items();
    let root = "/photos/".to_string();
    let dir = "/photos/hols".to_string();
    let full = primary_image_full_path(&root, &dir, &items[0]).unwrap();
    // "." means the descriptor's directory, made relative to the root
    assert_eq!(full, "/photos/hols/a.jpg");
    let mut cat = PhotoCatalogue::new();
    let junk = vec![0u8];
    cat.process_item_file_item(&root, &dir, &items[0], Some(&junk));
    assert_eq!(cat.items[0].representations.rep_at(0).relative_file_path, "hols/a.jpg");
}

#[test]
fn catalogue_sorts_by_time_taken() {
    let mut cat = PhotoCatalogue::new();
    let mut a = PhotoItem::new();
    a.set_basic_date(&"2020-01-01".to_string());
    let mut b = PhotoItem::new();
    b.set_basic_date(&"2019-06-01".to_string());
    let undated = PhotoItem::new();
    cat.items.push(a);
    cat.items.push(b);
    cat.items.push(undated);
    cat.sort_items();
    assert_eq!(cat.items.len(), 3);
    assert_eq!(cat.items[0].time_taken, None);
    assert_eq!(cat.items[1].time_taken.unwrap().year, 2019);
    assert_eq!(cat.items[2].time_taken.unwrap().year, 2020);
}

#[test]
fn no_date_and_no_exif_leaves_no_time() {
    let mut f = ItemFile::new();
    f.load_from_lines(&lines(&["* ", "\tres-0-img: a.jpg", "\tres-0: 10,10"]));
    let items = f.get_final_baked_items();
    let mut cat = PhotoCatalogue::new();
    let junk = vec![0u8];
    cat.process_item_file_item(&"/p".to_string(), &"/p/d".to_string(), &items[0], Some(&junk));
    assert_eq!(cat.items[0].time_taken, None);
}

#[test]
fn representations_stop_at_a_gap() {
    let mut f = ItemFile::new();
    f.load_from_lines(&lines(&[
        "* ",
        "\tres-0-img: a.jpg",
        "\tres-0: 2000,1000",
        "\tres-1-img: a_s.jpg",
        "\tres-1: 500,250",
        "\tres-3-img: skipped.jpg",
        "\tres-3: 10,5",
    ]));
    let items = f.get_final_baked_items();
    let mut cat = PhotoCatalogue::new();
    let junk = vec![0u8];
    cat.process_item_file_item(&"/p".to_string(), &"/p/d".to_string(), &items[0], Some(&junk));
    // res-2 is missing, so res-3 is never reached
    assert_eq!(cat.items[0].representations.len(), 2);
}

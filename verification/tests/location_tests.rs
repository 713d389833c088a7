use webserve::photos_handler::photo_item::PhotoItem;
use webserve::photos_handler::photos_html_helpers::{
    get_dates_datesbar_html, get_photoswipe_js_item_list,
};
use webserve::photos_handler::photo_representations::{PhotoRep, PhotoRepresentations};
use webserve::photos_handler::photo_results_date_accessor::PhotoResultsDateAccessor;
use webserve::photos_handler::photo_results_location_accessor::PhotoResultsLocationAccessor;
use webserve::photos_handler::photo_results::PhotoResults;

fn located(date: &str, geo: &str) -> PhotoItem {
    let mut p = PhotoItem::new();
    p.set_basic_date(&date.to_string());
    p.geo_location_path = geo.to_string();
    p
}

#[test]
fn location_trie_aggregation() {
    let photos = vec![
        located("2020-01-01", "Europe/France/Paris"),
        located("2020-02-01", "Europe/Italy/Rome"),
    ];
    let mut acc = PhotoResultsLocationAccessor::new();
    acc.build(&photos);

    let europe = acc.get_photos_for_location("Europe").unwrap();
    assert_eq!(europe.len(), 2);
    let paris = acc.get_photos_for_location("Europe/France/Paris").unwrap();
    assert_eq!(paris.len(), 1);
    assert_eq!(paris[0].geo_location_path, "Europe/France/Paris");

    let subs = acc.get_sub_locations_for_location("Europe");
    assert_eq!(subs, vec!["France".to_string(), "Italy".to_string()]);

    let top = acc.get_sub_locations_for_location("");
    assert_eq!(top, vec!["Europe".to_string()]);

    assert!(acc.get_photos_for_location("").is_none());
    assert!(acc.get_photos_for_location("Atlantis").is_none());
}

#[test]
fn undated_photo_with_path_is_indexed() {
    let mut p = PhotoItem::new();
    p.geo_location_path = "Europe/France".to_string();
    let photos = vec![p];
    let mut acc = PhotoResultsLocationAccessor::new();
    acc.build(&photos);
    let europe = acc.get_photos_for_location("Europe").unwrap();
    assert_eq!(europe.len(), 1);
    assert_eq!(europe[0].time_taken, None);
    let france = acc.get_photos_for_location("Europe/France").unwrap();
    assert_eq!(france.len(), 1);
}

#[test]
fn empty_location_path_is_not_indexed() {
    let photos = vec![located("2020-01-01", "")];
    let mut acc = PhotoResultsLocationAccessor::new();
    acc.build(&photos);
    assert_eq!(acc.items.len(), 0);
    assert!(acc.get_photos_for_location("anything").is_none());
}

#[test]
fn location_components_are_trimmed() {
    let photos = vec![located("2020-01-01", " Europe / France ")];
    let mut acc = PhotoResultsLocationAccessor::new();
    acc.build(&photos);
    let europe = acc.get_photos_for_location("Europe").unwrap();
    assert_eq!(europe.len(), 1);
    let france = acc.get_photos_for_location("Europe/ France").unwrap();
    assert_eq!(france.len(), 1);
}

#[test]
fn date_index_buckets() {
    let photos = vec![
        located("2020-05-02", "A"),
        located("2020-06-03", "A"),
        located("2021-01-01", "A"),
        PhotoItem::new(),
    ];
    let mut acc = PhotoResultsDateAccessor::new();
    acc.build(&photos);

    assert_eq!(acc.get_list_of_years(), vec![2020, 2021]);
    assert_eq!(acc.get_list_of_months_for_year(2020), vec![4, 5]);
    assert_eq!(acc.get_list_of_months_for_year(1999), Vec::<u32>::new());

    let y2020 = acc.get_photos_for_year(2020);
    assert_eq!(y2020.len(), 2);
    // months are 0-based: May is month 4
    let may = acc.get_photos_for_month_year(2020, 4);
    assert_eq!(may.len(), 1);
    assert_eq!(may[0].time_taken.unwrap().month, 5);
    assert_eq!(acc.get_photos_for_month_year(2020, 11).len(), 0);
    assert_eq!(acc.get_photos_for_year(1999).len(), 0);
}

#[test]
fn photo_without_time_is_not_date_indexed() {
    let photos = vec![PhotoItem::new()];
    let mut acc = PhotoResultsDateAccessor::new();
    acc.build(&photos);
    assert_eq!(acc.get_list_of_years().len(), 0);
}

#[test]
fn result_set_builds_accessors_once() {
    let mut results = PhotoResults::new();
    results.results.push(located("2020-05-02", "Europe/France"));
    results.check_date_accessor_is_built();
    assert!(results.date_accessor_built);
    assert_eq!(results.date_accessor.get_list_of_years(), vec![2020]);
    results.check_date_accessor_is_built();
    assert_eq!(results.date_accessor.get_list_of_years(), vec![2020]);
    results.check_location_accessor_is_built();
    assert!(results.location_accessor_built);
    let subs = results.location_accessor.get_sub_locations_for_location("");
    assert_eq!(subs, vec!["Europe".to_string()]);
    assert_eq!(results.photos().len(), 1);
}

#[test]
fn datesbar_renders_years_and_months() {
    let mut results = PhotoResults::new();
    results.results.push(located("2020-05-02", "A"));
    results.results.push(located("2020-06-03", "A"));
    results.check_date_accessor_is_built();
    let bar = get_dates_datesbar_html(&results, 2020, 4, true);
    let mut expected = String::new();
    expected.push_str("<button class=\"dropdown-btn active\">2020</button>\n");
    expected.push_str("<div class=\"dropdown-container\" style=\"display: block;\">\n");
    expected.push_str("  <a href=\"dates/2020\">(all)</a>\n");
    expected.push_str(" <div class=\"activeMonth\">\n");
    expected.push_str("  <a href=\"dates/2020/4\">May</a>\n");
    expected.push_str(" </div>\n");
    expected.push_str("  <a href=\"dates/2020/5\">June</a>\n");
    expected.push_str(" </div>\n");
    assert_eq!(bar, expected);

    let query_form = get_dates_datesbar_html(&results, 1999, 0, false);
    assert!(query_form.contains("<a href=\"dates/?year=2020\">(all)</a>"));
    assert!(query_form.contains("<a href=\"dates/?year=2020&month=4\">May</a>"));
}

#[test]
fn photoswipe_list_renders_items() {
    let mut a = located("2020-01-01", "A");
    let mut reps_a = PhotoRepresentations::new();
    reps_a.add_representation(PhotoRep::new("a.jpg", 800, 600));
    a.representations = reps_a;
    let mut b = located("2020-02-01", "A");
    let mut reps_b = PhotoRepresentations::new();
    reps_b.add_representation(PhotoRep::new("b.jpg", 40, 30));
    b.representations = reps_b;
    let photos = vec![a, b];

    let js = get_photoswipe_js_item_list(&photos, 0, 0);
    let mut expected = String::new();
    expected.push_str("var items = [\n");
    // the first photo meets the floor of 100; the second falls back to its
    // largest representation
    expected.push_str("\t{\n\t\tsrc: 'a.jpg',\n\t\tw: 800,\n\t\th: 600\n\t},\n");
    expected.push_str("\t{\n\t\tsrc: 'b.jpg',\n\t\tw: 40,\n\t\th: 30\n\t}\n");
    expected.push_str("\t];\n");
    assert_eq!(js, expected);

    let empty = get_photoswipe_js_item_list(&Vec::new(), 0, 10);
    assert_eq!(empty, "var items = [\n\t];\n");
}

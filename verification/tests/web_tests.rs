#![allow(non_snake_case)]
use webserve::configuration::{Configuration, SiteConfig};
use webserve::file_request_handler::FileRequestHandler;
use webserve::photos_handler::photos_common::{get_date_params_from_request, DateParams};
use webserve::sub_request_handler::HandleRequestResult;
use webserve::uri_helpers::split_first_level_directory_and_remainder;
use webserve::web_request::{
    HTTPRequestType, HTTPVersion, WebRequest, WebRequestParseError,
};
use webserve::photos_handler::photos_html_helpers::{
    generate_main_sitenav_code, get_locations_location_bar_html, get_pagination_code,
    GenMainSitenavCodeParams,
};
use webserve::web_response_generator::{GetResponseString, WebResponseGeneratorText};

#[test]
fn test1() {
    let mut dir = String::new();
    let mut remainder = String::new();

    let ret_res = split_first_level_directory_and_remainder("test/othertest", &mut dir, &mut remainder);

    assert_eq!(ret_res, true);
    assert_eq!(dir, "test");
    assert_eq!(remainder, "othertest");
}

#[test]
fn request_main_invalid() {
    let req_string = "/ g HTTP1.1\r\n".to_string();

    let web_request = WebRequest::create_from_string(&req_string);

    assert!(web_request.is_err(), "web_request should be an error...");
    assert_eq!(web_request, Err(WebRequestParseError::InvalidRequest));
}

#[test]
fn request_main_version1() {
    let req_string = "GET / HTTP/1.1\r\nHost: test.com\r\n".to_string();

    let web_request = WebRequest::create_from_string(&req_string).unwrap();

    assert_eq!(web_request.request_type, HTTPRequestType::GET);
    assert_eq!(web_request.path, "/");
    assert_eq!(web_request.request_version, HTTPVersion::HTTP11);

    assert_eq!(web_request.host_value, "test.com");
}

#[test]
fn request_main_version2() {
    let req_string = "POST /submit?force=true HTTP/1.1\r\nHost: test.com\r\n";

    let web_request = WebRequest::create_from_string(&req_string).unwrap();

    assert_eq!(web_request.request_type, HTTPRequestType::POST);
    assert_eq!(web_request.path, "/submit");
    assert_eq!(web_request.request_version, HTTPVersion::HTTP11);

    assert_eq!(web_request.host_value, "test.com");
}

#[test]
fn test_WebResponseGeneratorText1() {
    let resp_gen = WebResponseGeneratorText::new(200, "The quick brown dog jumped over the lazy fox.");
    let resp_string = resp_gen.get_response_string();

    let expected_response_string = "HTTP/1.1 200\r\n\
         Content-Type: text/html; charset=UTF-8\r\n\
         Content-Length: 45\r\n\r\n\
         The quick brown dog jumped over the lazy fox.";

    assert_eq!(resp_string, expected_response_string);
}

#[test]
fn request_params_and_cookies() {
    let req = "GET /photostream?perPage=25&startIndex=50&tag=once%2Ftwice HTTP/1.1\r\n\
               Host: photos.example\r\n\
               Cookie: dates_lazyLoading=1; theme=dark\r\n\
               Connection: close\r\n";
    let w = WebRequest::create_from_string(req).unwrap();
    assert!(w.has_param("perPage"));
    assert_eq!(w.get_param_as_uint("perPage", 100), 25);
    assert_eq!(w.get_param_as_uint("absent", 7), 7);
    assert_eq!(w.get_param("tag"), "once/twice");
    assert!(w.has_cookie("theme"));
    assert_eq!(w.get_cookie("theme"), "dark");
    assert_eq!(w.get_cookie_as_uint("dates_lazyLoading", 0), 1);
    assert_eq!(w.get_param_or_cookie_as_uint("perPage", "theme", 3), 25);
    assert_eq!(w.get_param_or_cookie_as_uint("nope", "dates_lazyLoading", 3), 1);
    // keys come back in order, pagination keys can be dropped
    assert_eq!(w.get_params_as_GET_string(false), "perPage=25&startIndex=50&tag=once/twice");
    assert_eq!(w.get_params_as_GET_string(true), "tag=once/twice");
}

#[test]
fn date_params_from_request() {
    let w1 = WebRequest::create_from_string("GET /dates?year=2020&month=3 HTTP/1.1\r\n").unwrap();
    assert_eq!(
        get_date_params_from_request(&w1, true, ""),
        DateParams::YearAndMonth { year: 2020, month: 3 }
    );
    let w2 = WebRequest::create_from_string("GET /dates/2019/5 HTTP/1.1\r\n").unwrap();
    assert_eq!(
        get_date_params_from_request(&w2, true, "2019/5"),
        DateParams::YearAndMonth { year: 2019, month: 5 }
    );
    assert_eq!(get_date_params_from_request(&w2, true, "2019"), DateParams::YearOnly(2019));
    assert_eq!(get_date_params_from_request(&w2, true, "x/y"), DateParams::Invalid);
    assert_eq!(get_date_params_from_request(&w2, false, "2019"), DateParams::Invalid);
}

#[test]
fn configuration_values() {
    let c = Configuration::new();
    assert_eq!(c.worker_threads, 8);
    assert_eq!(c.port_number_http, 9393);

    let mut key = String::new();
    let mut value = String::new();
    assert!(Configuration::get_key_value("portNumberHTTP: 8080", &mut key, &mut value));
    assert_eq!(key, "portNumberHTTP");
    assert_eq!(value, "8080");
    assert!(!Configuration::get_key_value("no separator", &mut key, &mut value));

    let mut b = false;
    assert!(Configuration::get_bool_value_from_string("yes", &mut b));
    assert!(b);
    assert!(Configuration::get_bool_value_from_string("0", &mut b));
    assert!(!b);
    assert!(!Configuration::get_bool_value_from_string("maybe", &mut b));

    let mut field = false;
    assert!(Configuration::try_extract_bool_value("enableHTTP", "enableHTTP", "true", &mut field));
    assert!(field);
    assert!(!Configuration::try_extract_bool_value("enableHTTP", "other", "true", &mut field));
}

#[test]
fn site_config_params() {
    let mut sc = SiteConfig::default();
    sc.params.insert("webContentPath".to_string(), "/srv/web".to_string());
    sc.params.insert("perPage".to_string(), "40".to_string());
    sc.params.insert("lazy".to_string(), "yes".to_string());
    assert!(sc.has_param("perPage"));
    assert!(!sc.has_param("absent"));
    assert_eq!(sc.get_param("webContentPath"), "/srv/web");
    assert_eq!(sc.get_param("absent"), "");
    assert_eq!(sc.get_param_as_uint("perPage", 5), 40);
    assert_eq!(sc.get_param_as_uint("lazy", 5), 5);
    assert!(sc.get_param_as_bool("lazy", false));
    assert!(sc.get_param_as_bool("missing", true));

    let mut fh = FileRequestHandler::new();
    assert!(!fh.configure(&sc));
    sc.params.insert("basePath".to_string(), "/srv/files".to_string());
    assert!(fh.configure(&sc));
    assert_eq!(fh.base_path, "/srv/files");
}

#[test]
fn handle_request_result_flags() {
    assert!(HandleRequestResult::RequestHandledOK.was_handled());
    assert!(!HandleRequestResult::RequestNotHandled.was_handled());
    assert!(HandleRequestResult::RequestHandledDisconnect.was_error());
    assert!(HandleRequestResult::RequestHandledError.was_error());
    assert!(!HandleRequestResult::RequestHandledOK.was_error());
}

#[test]
fn pagination_code_renders_pages() {
    let w = WebRequest::create_from_string("GET /photostream HTTP/1.1\r\n").unwrap();
    assert_eq!(get_pagination_code("photostream/", &w, 5, 0, 0, true, false), "");
    assert_eq!(get_pagination_code("photostream/", &w, 2, 0, 2, true, false), "");
    let bar = get_pagination_code("photostream/", &w, 5, 2, 2, true, false);
    let mut expected = String::new();
    expected.push_str("<div class=\"pagination\">\n");
    expected.push_str("  <a href=\"photostream/?&startIndex=0&perPage=2\">1</a>\n");
    expected.push_str("  <a href=\"photostream/?&startIndex=2&perPage=2\" class=\"active\">2</a>\n");
    expected.push_str("  <a href=\"photostream/?&startIndex=4&perPage=2\">3</a>\n");
    expected.push_str("  <a href=\"photostream/?&startIndex=4&perPage=2\">Last&nbsp;\u{bb}</a>\n");
    expected.push_str("</div>\n");
    assert_eq!(bar, expected);
}

#[test]
fn location_bar_renders_breadcrumbs() {
    let w = WebRequest::create_from_string(
        "GET /locations?locationPath=Europe%2FFrance HTTP/1.1\r\n",
    )
    .unwrap();
    let bar = get_locations_location_bar_html(&w);
    let mut expected = String::new();
    expected.push_str("<div class=\"subbar\">\n");
    expected.push_str("<div class=\"subbarLeft\">\n");
    expected.push_str("<div class=\"breadcrumb\">\n");
    expected.push_str(" <a href=\"locations\">All</a>\n");
    expected.push_str(" <a href=\"locations?locationPath=Europe\">Europe</a>\n");
    expected.push_str(" <a href=\"locations?locationPath=Europe%2FFrance\">France</a>\n");
    expected.push_str("</div></div></div>\n");
    assert_eq!(bar, expected);

    let none = WebRequest::create_from_string("GET /locations HTTP/1.1\r\n").unwrap();
    assert_eq!(get_locations_location_bar_html(&none), "");
}

#[test]
fn sitenav_code_renders_links() {
    let plain = generate_main_sitenav_code(
        GenMainSitenavCodeParams::new(false, false, "", "/srv/web"),
        "",
        "",
    );
    let mut expected = String::new();
    expected.push_str("<div class=\"topnav\">\n");
    expected.push_str("<a href=\"\">Home</a>\n");
    expected.push_str("<a href=\"photostream/\">Photostream</a>\n");
    expected.push_str("<a href=\"dates/\">Dates</a>\n");
    expected.push_str("<a href=\"locations/\">Locations</a>\n");
    expected.push_str("<a href=\"sets/\">Sets</a>\n");
    expected.push_str("</div>\n");
    assert_eq!(plain, expected);

    let with_icons = generate_main_sitenav_code(
        GenMainSitenavCodeParams::new(true, true, "dates_", "/srv/web"),
        "DIV-SNIPPET",
        "SCRIPTS-SNIPPET",
    );
    assert!(with_icons.contains("redirectToMainSlideshow()"));
    assert!(with_icons.contains("toggleViewSettingsPopupPanel('dates_')"));
    assert!(with_icons.contains("DIV-SNIPPET"));
    assert!(with_icons.contains("SCRIPTS-SNIPPET"));
}

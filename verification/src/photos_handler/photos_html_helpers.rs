//! The HTML fragments of the photos site that are pure text computation:
//! the navigation header, the location breadcrumb bar and the pagination bar.
use vstd::prelude::*;

use crate::file_helpers::spec_combine_paths;
use crate::file_helpers::combine_paths;
use crate::photos_handler::photo_item::{photo_views, PhotoItem, PhotoModel};
use crate::photos_handler::photo_representations::{
    lemma_fallback_at_unique, lemma_meets_at_unique, spec_fallback_at, spec_first_rep_with_fallback,
    spec_meets_at, spec_min_dim,
};
use crate::photos_handler::photo_results_location_accessor::{
    query_components, split_and_trim_components,
};
use crate::str_dict::assoc_get_or_empty;
use crate::string_helpers::{simple_encode_string, spec_simple_encode};
use crate::web_request::{spec_get_string_fold, WebRequest};

verus! {

/// What the site navigation header should include; the caller renders it
/// together with the template snippets it loads.
pub struct GenMainSitenavCodeParams {
    pub add_play_slideshow_icon: bool,
    pub add_view_settings_icon: bool,
    pub view_settings_template_prefix: String,
    pub main_web_content_path: String,
}

impl GenMainSitenavCodeParams {
    pub fn new(
        add_play_slideshow_icon: bool,
        add_view_settings_icon: bool,
        vs_prefix: &str,
        main_web_content_path: &str,
    ) -> (r: GenMainSitenavCodeParams)
        ensures
            r.add_play_slideshow_icon == add_play_slideshow_icon,
            r.add_view_settings_icon == add_view_settings_icon,
            r.view_settings_template_prefix@ == vs_prefix@,
            r.main_web_content_path@ == main_web_content_path@,
    {
        GenMainSitenavCodeParams {
            add_play_slideshow_icon,
            add_view_settings_icon,
            view_settings_template_prefix: vs_prefix.to_string(),
            main_web_content_path: main_web_content_path.to_string(),
        }
    }
}

// ---------------------------------------------------------------------------
// The site navigation header
// ---------------------------------------------------------------------------
/// The navigation header: the fixed links, then the optional slideshow and
/// view-settings icons with the settings snippets the caller loaded.
pub open spec fn spec_main_sitenav(
    play: bool,
    settings: bool,
    prefix: Seq<char>,
    div_snippet: Seq<char>,
    scripts_snippet: Seq<char>,
) -> Seq<char> {
    let head =
        "<div class=\"topnav\">\n<a href=\"\">Home</a>\n<a href=\"photostream/\">Photostream</a>\n<a href=\"dates/\">Dates</a>\n<a href=\"locations/\">Locations</a>\n<a href=\"sets/\">Sets</a>\n"@;
    let mid = if play || settings {
        "<div class=\"subbarRight\">\n"@ + (if play {
            "<img src=\"icons/play_main_navbar.svg\" onclick=\"redirectToMainSlideshow()\" style=\"float:right;\">\n"@
        } else {
            Seq::<char>::empty()
        }) + (if settings {
            "<img src=\"icons/settings_main_navbar.svg\" onclick=\"toggleViewSettingsPopupPanel('"@
                + prefix + "')\" style=\"float:right;\">\n"@ + div_snippet
        } else {
            Seq::<char>::empty()
        }) + "</div>\n"@
    } else {
        Seq::<char>::empty()
    };
    let tail = if settings {
        "\n"@ + scripts_snippet + "\n"@
    } else {
        Seq::<char>::empty()
    };
    head + mid + tail + "</div>\n"@
}

/// Render the navigation header. The two snippets are the view-settings
/// templates the caller read from its content directory; they are used only
/// when the view-settings icon is asked for.
pub fn generate_main_sitenav_code(
    params: GenMainSitenavCodeParams,
    view_settings_div_snippet: &str,
    view_settings_scripts_snippet: &str,
) -> (r: String)
    ensures
        r@ == spec_main_sitenav(
            params.add_play_slideshow_icon,
            params.add_view_settings_icon,
            params.view_settings_template_prefix@,
            view_settings_div_snippet@,
            view_settings_scripts_snippet@,
        ),
{
    let mut final_html =
        "<div class=\"topnav\">\n<a href=\"\">Home</a>\n<a href=\"photostream/\">Photostream</a>\n<a href=\"dates/\">Dates</a>\n<a href=\"locations/\">Locations</a>\n<a href=\"sets/\">Sets</a>\n".to_owned();

    if params.add_play_slideshow_icon || params.add_view_settings_icon {
        final_html.append("<div class=\"subbarRight\">\n");

        if params.add_play_slideshow_icon {
            final_html.append(
                "<img src=\"icons/play_main_navbar.svg\" onclick=\"redirectToMainSlideshow()\" style=\"float:right;\">\n",
            );
        }

        if params.add_view_settings_icon {
            final_html.append(
                "<img src=\"icons/settings_main_navbar.svg\" onclick=\"toggleViewSettingsPopupPanel('",
            );
            final_html.append(params.view_settings_template_prefix.as_str());
            final_html.append("')\" style=\"float:right;\">\n");
            final_html.append(view_settings_div_snippet);
        }

        final_html.append("</div>\n");
    }

    if params.add_view_settings_icon {
        final_html.append("\n");
        final_html.append(view_settings_scripts_snippet);
        final_html.append("\n");
    }

    final_html.append("</div>\n");
    proof {
        assert(final_html@ =~= spec_main_sitenav(
            params.add_play_slideshow_icon,
            params.add_view_settings_icon,
            params.view_settings_template_prefix@,
            view_settings_div_snippet@,
            view_settings_scripts_snippet@,
        ));
    }
    final_html
}

// ---------------------------------------------------------------------------
// The location breadcrumb bar
// ---------------------------------------------------------------------------
/// One breadcrumb link per component, each pointing at the encoded path up
/// to and including it.
pub open spec fn spec_location_bar_fold(
    acc: Seq<char>,
    full_path: Seq<char>,
    comps: Seq<Seq<char>>,
) -> Seq<char>
    decreases comps.len(),
{
    if comps.len() == 0 {
        acc
    } else {
        let fp = spec_combine_paths(full_path, comps[0]);
        let acc2 = acc + " <a href=\"locations?locationPath="@ + spec_simple_encode(fp) + "\">"@
            + comps[0] + "</a>\n"@;
        spec_location_bar_fold(acc2, fp, comps.drop_first())
    }
}

/// The whole breadcrumb bar of a request, or nothing without a
/// `locationPath` parameter.
pub open spec fn spec_location_bar(params: Seq<(Seq<char>, Seq<char>)>) -> Seq<char> {
    let lp = assoc_get_or_empty(params, "locationPath"@);
    if lp.len() == 0 {
        Seq::<char>::empty()
    } else {
        let header = "<div class=\"subbar\">\n"@ + "<div class=\"subbarLeft\">\n"@
            + "<div class=\"breadcrumb\">\n"@ + " <a href=\"locations\">All</a>\n"@;
        spec_location_bar_fold(header, Seq::<char>::empty(), query_components(lp))
            + "</div></div></div>\n"@
    }
}

/// Render the breadcrumb bar for the request's `locationPath`.
pub fn get_locations_location_bar_html(request: &WebRequest) -> (r: String)
    requires
        request.wf(),
    ensures
        r@ == spec_location_bar(request@.params),
{
    let current_location_path = request.get_param("locationPath");
    if current_location_path.as_str().unicode_len() == 0 {
        return String::new();
    }

    let location_components = split_and_trim_components(current_location_path.as_str());
    let ghost comps = query_components(current_location_path@);

    let mut final_html = "<div class=\"subbar\">\n".to_owned();
    final_html.append("<div class=\"subbarLeft\">\n");
    final_html.append("<div class=\"breadcrumb\">\n");
    final_html.append(" <a href=\"locations\">All</a>\n");
    let ghost header = final_html@;

    let mut full_path = String::new();
    let n = location_components.len();
    let mut i: usize = 0;
    proof {
        assert(comps.skip(0) =~= comps);
    }
    while i < n
        invariant
            0 <= i <= n,
            n == location_components@.len(),
            n == comps.len(),
            forall|p: int| 0 <= p < n ==> (#[trigger] location_components@[p])@ == comps[p],
            spec_location_bar_fold(header, Seq::<char>::empty(), comps) == spec_location_bar_fold(
                final_html@,
                full_path@,
                comps.skip(i as int),
            ),
        decreases n - i,
    {
        proof {
            assert(comps.skip(i as int)[0] == comps[i as int]);
            assert(comps.skip(i as int).drop_first() =~= comps.skip(i + 1));
        }
        let ghost prev = final_html@;
        let comp_str = &location_components[i];
        full_path = combine_paths(full_path.as_str(), comp_str.as_str());
        let encoded_location_path = simple_encode_string(full_path.as_str());
        final_html.append(" <a href=\"locations?locationPath=");
        final_html.append(encoded_location_path.as_str());
        final_html.append("\">");
        final_html.append(comp_str.as_str());
        final_html.append("</a>\n");
        proof {
            assert(final_html@ =~= prev + " <a href=\"locations?locationPath="@
                + spec_simple_encode(full_path@) + "\">"@ + comps[i as int] + "</a>\n"@);
        }
        i = i + 1;
    }
    proof {
        assert(comps.skip(n as int) =~= Seq::<Seq<char>>::empty());
    }
    final_html.append("</div></div></div>\n");
    final_html
}

// ---------------------------------------------------------------------------
// The pagination bar
// ---------------------------------------------------------------------------
/// How many pages the pagination bar shows at most.
pub const NUM_TOTAL_PAGES_TO_SHOW: usize = 9;

/// How many pages either side of the current one, excluding the first and
/// last buttons.
pub const NUM_BOOKEND_PAGES_TO_SHOW: usize = 4;

/// One page link: the start index and page size as parameters, the page
/// number as the text, and the active page marked.
pub open spec fn spec_page_link(
    url: Seq<char>,
    existing: Seq<char>,
    per_page: int,
    i: int,
    current: int,
) -> Seq<char> {
    "  <a href=\""@ + url + "?"@ + existing + "&startIndex="@ + crate::text::spec_dec_string(
        i * per_page,
    ) + "&perPage="@ + crate::text::spec_dec_string(per_page) + (if i == current {
        "\" class=\"active\">"@
    } else {
        "\">"@
    }) + crate::text::spec_dec_string(i + 1) + "</a>\n"@
}

pub open spec fn spec_page_links(
    acc: Seq<char>,
    url: Seq<char>,
    existing: Seq<char>,
    per_page: int,
    i: int,
    end: int,
    current: int,
) -> Seq<char>
    decreases end - i,
{
    if i >= end {
        acc
    } else {
        spec_page_links(
            acc + spec_page_link(url, existing, per_page, i, current),
            url,
            existing,
            per_page,
            i + 1,
            end,
            current,
        )
    }
}

/// The whole pagination bar: nothing for a single page, else a windowed run
/// of page links with optional first and last buttons.
pub open spec fn spec_pagination_code(
    url: Seq<char>,
    params: Seq<(Seq<char>, Seq<char>)>,
    total_count: int,
    start_index: int,
    per_page: int,
    add_first_and_last: bool,
    add_to_existing_get_params: bool,
) -> Seq<char> {
    if per_page == 0 {
        Seq::<char>::empty()
    } else {
        let num_pages = total_count / per_page + (if total_count % per_page > 0 {
            1int
        } else {
            0int
        });
        if num_pages <= 1 {
            Seq::<char>::empty()
        } else {
            let current = start_index / per_page;
            let first_page = if num_pages > NUM_TOTAL_PAGES_TO_SHOW && current
                > NUM_BOOKEND_PAGES_TO_SHOW {
                current - NUM_BOOKEND_PAGES_TO_SHOW
            } else {
                0int
            };
            let show = if num_pages > NUM_TOTAL_PAGES_TO_SHOW {
                if num_pages - first_page < NUM_TOTAL_PAGES_TO_SHOW {
                    num_pages - first_page
                } else {
                    NUM_TOTAL_PAGES_TO_SHOW as int
                }
            } else {
                if NUM_TOTAL_PAGES_TO_SHOW < num_pages {
                    NUM_TOTAL_PAGES_TO_SHOW as int
                } else {
                    num_pages
                }
            };
            let existing = if add_to_existing_get_params {
                spec_get_string_fold(Seq::<char>::empty(), params, true)
            } else {
                Seq::<char>::empty()
            };
            let head = "<div class=\"pagination\">\n"@ + (if add_first_and_last && first_page > 0
                && current >= NUM_BOOKEND_PAGES_TO_SHOW {
                " <a href=\""@ + url + "?"@ + existing + "&startIndex=0&perPage="@
                    + crate::text::spec_dec_string(per_page) + "\">\u{ab}&nbsp;First</a>\n"@
            } else {
                Seq::<char>::empty()
            });
            let links = spec_page_links(
                head,
                url,
                existing,
                per_page,
                first_page,
                first_page + show,
                current,
            );
            links + (if add_first_and_last {
                "  <a href=\""@ + url + "?"@ + existing + "&startIndex="@
                    + crate::text::spec_dec_string((num_pages - 1) * per_page) + "&perPage="@
                    + crate::text::spec_dec_string(per_page) + "\">Last&nbsp;\u{bb}</a>\n"@
            } else {
                Seq::<char>::empty()
            }) + "</div>\n"@
        }
    }
}

fn append_page_params(out: &mut String, url: &str, existing: &str, start_index: usize, per_page: usize)
    ensures
        final(out)@ == old(out)@ + "  <a href=\""@ + url@ + "?"@ + existing@ + "&startIndex="@
            + crate::text::spec_dec_string(start_index as int) + "&perPage="@
            + crate::text::spec_dec_string(per_page as int),
{
    let ghost base = out@;
    out.append("  <a href=\"");
    out.append(url);
    out.append("?");
    out.append(existing);
    out.append("&startIndex=");
    let si = crate::text::u64_to_string(start_index as u64);
    out.append(si.as_str());
    out.append("&perPage=");
    let pp = crate::text::u64_to_string(per_page as u64);
    out.append(pp.as_str());
    proof {
        assert(out@ =~= base + "  <a href=\""@ + url@ + "?"@ + existing@ + "&startIndex="@
            + crate::text::spec_dec_string(start_index as int) + "&perPage="@
            + crate::text::spec_dec_string(per_page as int));
    }
}

fn render_page_links(
    out: &mut String,
    url: &str,
    existing: &str,
    per_page: usize,
    first_page: usize,
    end_page: usize,
    current_page_index: usize,
    num_pages: usize,
)
    requires
        per_page >= 1,
        first_page <= end_page,
        end_page == first_page || end_page <= num_pages,
        (num_pages - 1) * per_page <= usize::MAX,
    ensures
        final(out)@ == spec_page_links(
            old(out)@,
            url@,
            existing@,
            per_page as int,
            first_page as int,
            end_page as int,
            current_page_index as int,
        ),
{
    let ghost head = out@;
    let mut i = first_page;
    while i < end_page
        invariant
            first_page <= i <= end_page,
            first_page == end_page || end_page <= num_pages,
            per_page >= 1,
            (num_pages - 1) * per_page <= usize::MAX,
            spec_page_links(
                head,
                url@,
                existing@,
                per_page as int,
                first_page as int,
                end_page as int,
                current_page_index as int,
            ) == spec_page_links(
                out@,
                url@,
                existing@,
                per_page as int,
                i as int,
                end_page as int,
                current_page_index as int,
            ),
        decreases end_page - i,
    {
        proof {
            assert(i < end_page && end_page <= num_pages);
            assert(i as int * per_page as int <= (num_pages - 1) * per_page) by (nonlinear_arith)
                requires
                    per_page >= 1,
                    0 <= i as int <= num_pages - 1,
            ;
        }
        let link_start_index = i * per_page;
        let ghost before = out@;
        append_page_params(out, url, existing, link_start_index, per_page);
        if i == current_page_index {
            out.append("\" class=\"active\">");
        } else {
            out.append("\">");
        }
        let num = crate::text::u64_to_string((i + 1) as u64);
        out.append(num.as_str());
        out.append("</a>\n");
        proof {
            assert(out@ =~= before + spec_page_link(
                url@,
                existing@,
                per_page as int,
                i as int,
                current_page_index as int,
            ));
        }
        i = i + 1;
    }
}

/// Render the pagination bar for a list of `total_count` entries shown
/// `per_page` at a time, from `start_index`.
#[verifier::rlimit(100)]
pub fn get_pagination_code(
    url: &str,
    web_request: &WebRequest,
    total_count: usize,
    start_index: usize,
    per_page: usize,
    add_first_and_last: bool,
    add_to_existing_get_params: bool,
) -> (r: String)
    requires
        web_request.wf(),
    ensures
        r@ == spec_pagination_code(
            url@,
            web_request@.params,
            total_count as int,
            start_index as int,
            per_page as int,
            add_first_and_last,
            add_to_existing_get_params,
        ),
{
    if per_page == 0 {
        return String::new();
    }

    let mut num_pages = total_count / per_page;
    if total_count % per_page > 0 {
        proof {
            assert(num_pages < usize::MAX) by (nonlinear_arith)
                requires
                    per_page >= 1,
                    num_pages == total_count as int / per_page as int,
                    total_count as int % per_page as int > 0,
                    total_count <= usize::MAX,
            ;
        }
        num_pages = num_pages + 1;
    }

    if num_pages <= 1 {
        return String::new();
    }

    let max_pages = NUM_TOTAL_PAGES_TO_SHOW;
    let mut first_page: usize = 0;
    let mut page_items_to_show = if max_pages < num_pages {
        max_pages
    } else {
        num_pages
    };
    let current_page_index = start_index / per_page;

    if num_pages > max_pages {
        if current_page_index > NUM_BOOKEND_PAGES_TO_SHOW {
            first_page = current_page_index - NUM_BOOKEND_PAGES_TO_SHOW;
        }
        page_items_to_show = if first_page >= num_pages {
            0
        } else if num_pages - first_page < max_pages {
            num_pages - first_page
        } else {
            max_pages
        };
    }

    let existing_get_params_string = if add_to_existing_get_params {
        web_request.get_params_as_GET_string(true)
    } else {
        String::new()
    };
    let existing = existing_get_params_string.as_str();

    proof {
        assert((num_pages - 1) * per_page <= total_count) by (nonlinear_arith)
            requires
                per_page >= 1,
                num_pages == total_count as int / per_page as int + (
                if total_count as int % per_page as int > 0 {
                    1int
                } else {
                    0int
                }),
                total_count >= 0,
        ;
        assert(current_page_index * per_page <= start_index) by (nonlinear_arith)
            requires
                per_page >= 1,
                start_index >= 0,
                current_page_index == start_index as int / per_page as int,
        ;
    }

    let mut final_html = "<div class=\"pagination\">\n".to_owned();

    if add_first_and_last && first_page > 0 && current_page_index >= NUM_BOOKEND_PAGES_TO_SHOW {
        let ghost base = final_html@;
        final_html.append(" <a href=\"");
        final_html.append(url);
        final_html.append("?");
        final_html.append(existing);
        final_html.append("&startIndex=0&perPage=");
        let pp = crate::text::u64_to_string(per_page as u64);
        final_html.append(pp.as_str());
        final_html.append("\">\u{ab}&nbsp;First</a>\n");
        proof {
            assert(final_html@ =~= base + (" <a href=\""@ + url@ + "?"@ + existing@
                + "&startIndex=0&perPage="@ + crate::text::spec_dec_string(per_page as int)
                + "\">\u{ab}&nbsp;First</a>\n"@));
        }
    }

    let end_page = first_page + page_items_to_show;
    render_page_links(
        &mut final_html,
        url,
        existing,
        per_page,
        first_page,
        end_page,
        current_page_index,
        num_pages,
    );

    if add_first_and_last {
        let last_page_start_index = (num_pages - 1) * per_page;
        let ghost before = final_html@;
        final_html.append("  <a href=\"");
        final_html.append(url);
        final_html.append("?");
        final_html.append(existing);
        final_html.append("&startIndex=");
        let si = crate::text::u64_to_string(last_page_start_index as u64);
        final_html.append(si.as_str());
        final_html.append("&perPage=");
        let pp = crate::text::u64_to_string(per_page as u64);
        final_html.append(pp.as_str());
        final_html.append("\">Last&nbsp;\u{bb}</a>\n");
        proof {
            assert(final_html@ =~= before + ("  <a href=\""@ + url@ + "?"@ + existing@
                + "&startIndex="@ + crate::text::spec_dec_string(
                (num_pages - 1) * per_page as int,
            ) + "&perPage="@ + crate::text::spec_dec_string(per_page as int)
                + "\">Last&nbsp;\u{bb}</a>\n"@));
        }
    }

    final_html.append("</div>\n");
    final_html
}

// ---------------------------------------------------------------------------
// The dates sidebar
// ---------------------------------------------------------------------------
/// The English name of a 0-based month; anything past the twelfth month
/// renders as nothing.
pub open spec fn spec_month_name(m: int) -> Seq<char> {
    if m == 0 {
        "January"@
    } else if m == 1 {
        "February"@
    } else if m == 2 {
        "March"@
    } else if m == 3 {
        "April"@
    } else if m == 4 {
        "May"@
    } else if m == 5 {
        "June"@
    } else if m == 6 {
        "July"@
    } else if m == 7 {
        "August"@
    } else if m == 8 {
        "September"@
    } else if m == 9 {
        "October"@
    } else if m == 10 {
        "November"@
    } else if m == 11 {
        "December"@
    } else {
        ""@
    }
}

fn month_name(m: u32) -> (r: &'static str)
    ensures
        r@ == spec_month_name(m as int),
{
    if m == 0 {
        "January"
    } else if m == 1 {
        "February"
    } else if m == 2 {
        "March"
    } else if m == 3 {
        "April"
    } else if m == 4 {
        "May"
    } else if m == 5 {
        "June"
    } else if m == 6 {
        "July"
    } else if m == 7 {
        "August"
    } else if m == 8 {
        "September"
    } else if m == 9 {
        "October"
    } else if m == 10 {
        "November"
    } else if m == 11 {
        "December"
    } else {
        ""
    }
}

/// One month link of the sidebar, wrapped in the active marker when it is
/// the selected month of the selected year.
pub open spec fn spec_datesbar_month(
    year: u32,
    m: u32,
    active_year: u32,
    active_month: u32,
    use_uri: bool,
) -> Seq<char> {
    (if year == active_year && m == active_month {
        " <div class=\"activeMonth\">\n"@
    } else {
        Seq::<char>::empty()
    }) + (if use_uri {
        "  <a href=\"dates/"@ + crate::text::spec_dec_string(year as int) + "/"@
            + crate::text::spec_dec_string(m as int) + "\">"@ + spec_month_name(m as int)
            + "</a>\n"@
    } else {
        "  <a href=\"dates/?year="@ + crate::text::spec_dec_string(year as int) + "&month="@
            + crate::text::spec_dec_string(m as int) + "\">"@ + spec_month_name(m as int)
            + "</a>\n"@
    }) + (if year == active_year && m == active_month {
        " </div>\n"@
    } else {
        Seq::<char>::empty()
    })
}

pub open spec fn spec_datesbar_months(
    acc: Seq<char>,
    year: u32,
    months: Seq<u32>,
    active_year: u32,
    active_month: u32,
    use_uri: bool,
) -> Seq<char>
    decreases months.len(),
{
    if months.len() == 0 {
        acc
    } else {
        spec_datesbar_months(
            acc + spec_datesbar_month(year, months[0], active_year, active_month, use_uri),
            year,
            months.drop_first(),
            active_year,
            active_month,
            use_uri,
        )
    }
}

/// One year of the sidebar: its button, its dropdown with the `(all)` link
/// and one link per month, expanded when it is the active year.
pub open spec fn spec_datesbar_years(
    acc: Seq<char>,
    entries: Seq<crate::photos_handler::photo_results_date_accessor::YearEntry>,
    active_year: u32,
    active_month: u32,
    use_uri: bool,
) -> Seq<char>
    decreases entries.len(),
{
    if entries.len() == 0 {
        acc
    } else {
        let e = entries[0];
        let head = acc + (if e.year == active_year {
            "<button class=\"dropdown-btn active\">"@
        } else {
            "<button class=\"dropdown-btn\">"@
        }) + crate::text::spec_dec_string(e.year as int) + "</button>\n"@ + (if e.year
            == active_year {
            "<div class=\"dropdown-container\" style=\"display: block;\">\n"@
        } else {
            "<div class=\"dropdown-container\">\n"@
        }) + (if use_uri {
            "  <a href=\"dates/"@ + crate::text::spec_dec_string(e.year as int) + "\">(all)</a>\n"@
        } else {
            "  <a href=\"dates/?year="@ + crate::text::spec_dec_string(e.year as int)
                + "\">(all)</a>\n"@
        });
        let with_months = spec_datesbar_months(
            head,
            e.year,
            e.months@,
            active_year,
            active_month,
            use_uri,
        );
        spec_datesbar_years(
            with_months + " </div>\n"@,
            entries.drop_first(),
            active_year,
            active_month,
            use_uri,
        )
    }
}

fn append_month_links(
    out: &mut String,
    year: u32,
    months: &Vec<u32>,
    active_year: u32,
    active_month: u32,
    use_uri: bool,
)
    ensures
        final(out)@ == spec_datesbar_months(
            old(out)@,
            year,
            months@,
            active_year,
            active_month,
            use_uri,
        ),
{
    let ghost base = out@;
    let n = months.len();
    let mut i: usize = 0;
    proof {
        assert(months@.skip(0) =~= months@);
    }
    while i < n
        invariant
            0 <= i <= n,
            n == months@.len(),
            spec_datesbar_months(base, year, months@, active_year, active_month, use_uri)
                == spec_datesbar_months(
                out@,
                year,
                months@.skip(i as int),
                active_year,
                active_month,
                use_uri,
            ),
        decreases n - i,
    {
        proof {
            assert(months@.skip(i as int)[0] == months@[i as int]);
            assert(months@.skip(i as int).drop_first() =~= months@.skip(i + 1));
        }
        let ghost before = out@;
        let m = months[i];
        let is_active = year == active_year && m == active_month;
        if is_active {
            out.append(" <div class=\"activeMonth\">\n");
        }
        let ys = crate::text::u64_to_string(year as u64);
        let ms = crate::text::u64_to_string(m as u64);
        if use_uri {
            out.append("  <a href=\"dates/");
            out.append(ys.as_str());
            out.append("/");
            out.append(ms.as_str());
            out.append("\">");
        } else {
            out.append("  <a href=\"dates/?year=");
            out.append(ys.as_str());
            out.append("&month=");
            out.append(ms.as_str());
            out.append("\">");
        }
        out.append(month_name(m));
        out.append("</a>\n");
        if is_active {
            out.append(" </div>\n");
        }
        proof {
            assert(out@ =~= before + spec_datesbar_month(
                year,
                months@[i as int],
                active_year,
                active_month,
                use_uri,
            ));
        }
        i = i + 1;
    }
    proof {
        assert(months@.skip(n as int) =~= Seq::<u32>::empty());
    }
}

/// Render the dates sidebar over the result set's date index: one collapsible
/// block per year with its months, the active selection marked and expanded.
pub fn get_dates_datesbar_html(
    photos: &crate::photos_handler::photo_results::PhotoResults,
    active_year: u32,
    active_month: u32,
    use_uri_for_components: bool,
) -> (r: String)
    ensures
        r@ == spec_datesbar_years(
            Seq::<char>::empty(),
            photos.date_accessor.years@,
            active_year,
            active_month,
            use_uri_for_components,
        ),
{
    let ghost entries = photos.date_accessor.years@;
    let mut final_html = String::new();
    let n = photos.date_accessor.years.len();
    let mut i: usize = 0;
    proof {
        assert(entries.skip(0) =~= entries);
    }
    while i < n
        invariant
            0 <= i <= n,
            n == entries.len(),
            entries == photos.date_accessor.years@,
            spec_datesbar_years(
                Seq::<char>::empty(),
                entries,
                active_year,
                active_month,
                use_uri_for_components,
            ) == spec_datesbar_years(
                final_html@,
                entries.skip(i as int),
                active_year,
                active_month,
                use_uri_for_components,
            ),
        decreases n - i,
    {
        proof {
            assert(entries.skip(i as int)[0] == entries[i as int]);
            assert(entries.skip(i as int).drop_first() =~= entries.skip(i + 1));
        }
        let ghost before = final_html@;
        let entry = &photos.date_accessor.years[i];
        let year = entry.year;
        if year == active_year {
            final_html.append("<button class=\"dropdown-btn active\">");
        } else {
            final_html.append("<button class=\"dropdown-btn\">");
        }
        let ys = crate::text::u64_to_string(year as u64);
        final_html.append(ys.as_str());
        final_html.append("</button>\n");
        if year == active_year {
            final_html.append("<div class=\"dropdown-container\" style=\"display: block;\">\n");
        } else {
            final_html.append("<div class=\"dropdown-container\">\n");
        }
        if use_uri_for_components {
            final_html.append("  <a href=\"dates/");
            final_html.append(ys.as_str());
            final_html.append("\">(all)</a>\n");
        } else {
            final_html.append("  <a href=\"dates/?year=");
            final_html.append(ys.as_str());
            final_html.append("\">(all)</a>\n");
        }
        proof {
            assert(final_html@ =~= before + (if entries[i as int].year == active_year {
                "<button class=\"dropdown-btn active\">"@
            } else {
                "<button class=\"dropdown-btn\">"@
            }) + crate::text::spec_dec_string(entries[i as int].year as int) + "</button>\n"@ + (
            if entries[i as int].year == active_year {
                "<div class=\"dropdown-container\" style=\"display: block;\">\n"@
            } else {
                "<div class=\"dropdown-container\">\n"@
            }) + (if use_uri_for_components {
                "  <a href=\"dates/"@ + crate::text::spec_dec_string(entries[i as int].year as int)
                    + "\">(all)</a>\n"@
            } else {
                "  <a href=\"dates/?year="@ + crate::text::spec_dec_string(
                    entries[i as int].year as int,
                ) + "\">(all)</a>\n"@
            }));
        }
        append_month_links(
            &mut final_html,
            year,
            &entry.months,
            active_year,
            active_month,
            use_uri_for_components,
        );
        final_html.append(" </div>\n");
        i = i + 1;
    }
    proof {
        assert(entries.skip(n as int) =~= Seq::<
            crate::photos_handler::photo_results_date_accessor::YearEntry,
        >::empty());
    }
    final_html
}

// ---------------------------------------------------------------------------
// The photoswipe item list
// ---------------------------------------------------------------------------
/// One item of the photoswipe list: path, width and height, with a trailing
/// comma on every entry but the one rendered at the expected last position.
pub open spec fn spec_photoswipe_entry(rep: (Seq<char>, u16, u16), with_comma: bool) -> Seq<char> {
    "\t{\n\t\tsrc: '"@ + rep.0 + "',\n\t\tw: "@ + crate::text::spec_dec_string(rep.1 as int)
        + ",\n\t\th: "@ + crate::text::spec_dec_string(rep.2 as int) + (if with_comma {
        "\n\t},\n"@
    } else {
        "\n\t}\n"@
    })
}

/// The entries for the photos from `i` up to and including `end`: each photo
/// contributes the representation `spec_first_rep_with_fallback` names for a
/// floor of 100, and photos with no usable representation are passed over.
pub open spec fn spec_photoswipe_items(
    acc: Seq<char>,
    count: int,
    photos: Seq<PhotoModel>,
    i: int,
    end: int,
    num_items: int,
) -> Seq<char>
    decreases end + 1 - i,
{
    if i > end || i < 0 || i >= photos.len() {
        acc
    } else {
        match spec_first_rep_with_fallback(photos[i].reps, 100u16) {
            Some(rep) => spec_photoswipe_items(
                acc + spec_photoswipe_entry(rep, count != num_items),
                count + 1,
                photos,
                i + 1,
                end,
                num_items,
            ),
            None => spec_photoswipe_items(acc, count, photos, i + 1, end, num_items),
        }
    }
}

/// The whole photoswipe list: the window `start..=end` of the photos where
/// `end` is the last index, pulled in to `start + per_page` when paging is
/// on; an empty list or an out-of-range start yields just the brackets.
pub open spec fn spec_photoswipe_list(
    photos: Seq<PhotoModel>,
    start: int,
    per_page: int,
) -> Seq<char> {
    let header = "var items = [\n"@;
    let footer = "\t];\n"@;
    if photos.len() == 0 || start >= photos.len() {
        header + footer
    } else {
        let last = photos.len() - 1;
        let end = if per_page > 0 && start != last && start + per_page <= last {
            start + per_page
        } else {
            last
        };
        spec_photoswipe_items(header, 0, photos, start, end, end - start) + footer
    }
}

/// Render the photoswipe item list for the window of `photos` starting at
/// `start_index`, `per_page` entries when paging is on.
pub fn get_photoswipe_js_item_list(
    photos: &Vec<PhotoItem>,
    start_index: usize,
    per_page: usize,
) -> (r: String)
    ensures
        r@ == spec_photoswipe_list(photo_views(photos@), start_index as int, per_page as int),
{
    let ghost pv = photo_views(photos@);
    let mut final_js = "var items = [\n".to_owned();
    let ghost header = final_js@;
    let n = photos.len();
    if n == 0 || start_index >= n {
        final_js.append("\t];\n");
        return final_js;
    }
    let last = n - 1;
    let mut end_index = last;
    if per_page > 0 && start_index != last {
        if per_page <= last - start_index {
            end_index = start_index + per_page;
        }
    }
    let num_items = end_index - start_index;
    let mut count: usize = 0;
    let mut i = start_index;
    while i <= end_index
        invariant
            start_index <= i <= end_index + 1,
            start_index <= end_index < n,
            n == photos@.len(),
            pv == photo_views(photos@),
            count <= i - start_index,
            num_items == end_index - start_index,
            spec_photoswipe_items(
                header,
                0,
                pv,
                start_index as int,
                end_index as int,
                num_items as int,
            ) == spec_photoswipe_items(
                final_js@,
                count as int,
                pv,
                i as int,
                end_index as int,
                num_items as int,
            ),
        decreases end_index + 1 - i,
    {
        proof {
            assert(pv[i as int] == photos@[i as int]@);
        }
        let ghost reps = pv[i as int].reps;
        let rep_opt = photos[i].representations.get_first_representation_matching_criteria_min_dimension(
            100,
            true,
        );
        match rep_opt {
            Some(repre) => {
                proof {
                    assert(100u32 as u16 == 100u16);
                    if exists|k: int| spec_meets_at(reps, 100u16, k) {
                        let c = choose|k: int| spec_meets_at(reps, 100u16, k);
                        let w = choose|w: int|
                            0 <= w < reps.len() && repre@ == reps[w] && spec_min_dim(reps[w])
                                >= 100u16 && (forall|j: int|
                                0 <= j < w ==> spec_min_dim(#[trigger] reps[j]) < 100u16);
                        assert(spec_meets_at(reps, 100u16, w));
                        lemma_meets_at_unique(reps, 100u16, w, c);
                        assert(repre@ == spec_first_rep_with_fallback(reps, 100u16)->0);
                    } else {
                        // the first disjunct of the search's contract would
                        // yield a meeting index, so the fallback one holds
                        if exists|w: int|
                            0 <= w < reps.len() && repre@ == reps[w] && spec_min_dim(
                                #[trigger] reps[w],
                            ) >= 100u16 && (forall|j: int|
                                0 <= j < w ==> spec_min_dim(#[trigger] reps[j]) < 100u16) {
                            let w = choose|w: int|
                                0 <= w < reps.len() && repre@ == reps[w] && spec_min_dim(
                                    #[trigger] reps[w],
                                ) >= 100u16 && (forall|j: int|
                                    0 <= j < w ==> spec_min_dim(#[trigger] reps[j]) < 100u16);
                            assert(spec_meets_at(reps, 100u16, w));
                            assert(false);
                        }
                        let c = choose|k: int| spec_fallback_at(reps, k);
                        let w = choose|w: int|
                            0 <= w < reps.len() && repre@ == reps[w] && spec_min_dim(
                                #[trigger] reps[w],
                            ) > 1 && (forall|j: int|
                                0 <= j < reps.len() ==> spec_min_dim(#[trigger] reps[j])
                                    <= spec_min_dim(reps[w])) && (forall|j: int|
                                0 <= j < w ==> spec_min_dim(#[trigger] reps[j]) < spec_min_dim(
                                    reps[w],
                                ));
                        assert(spec_fallback_at(reps, w));
                        lemma_fallback_at_unique(reps, w, c);
                        assert(repre@ == spec_first_rep_with_fallback(reps, 100u16)->0);
                    }
                }
                let ghost before = final_js@;
                let with_comma = count != num_items;
                final_js.append("\t{\n\t\tsrc: '");
                final_js.append(repre.relative_file_path.as_str());
                final_js.append("',\n\t\tw: ");
                let ws = crate::text::u64_to_string(repre.width as u64);
                final_js.append(ws.as_str());
                final_js.append(",\n\t\th: ");
                let hs = crate::text::u64_to_string(repre.height as u64);
                final_js.append(hs.as_str());
                if with_comma {
                    final_js.append("\n\t},\n");
                } else {
                    final_js.append("\n\t}\n");
                }
                proof {
                    assert(final_js@ =~= before + spec_photoswipe_entry(
                        spec_first_rep_with_fallback(reps, 100u16)->0,
                        count != num_items,
                    ));
                }
                count = count + 1;
            },
            None => {
                proof {
                    assert(forall|j: int|
                        0 <= j < reps.len() ==> spec_min_dim(#[trigger] reps[j]) < 100u16);
                    assert(forall|j: int|
                        0 <= j < reps.len() ==> spec_min_dim(#[trigger] reps[j]) <= 1);
                    assert(!exists|k: int| spec_meets_at(reps, 100u16, k)) by {
                        if exists|k: int| spec_meets_at(reps, 100u16, k) {
                            let k = choose|k: int| spec_meets_at(reps, 100u16, k);
                            assert(spec_min_dim(reps[k]) < 100u16);
                        }
                    }
                    assert(!exists|k: int| spec_fallback_at(reps, k)) by {
                        if exists|k: int| spec_fallback_at(reps, k) {
                            let k = choose|k: int| spec_fallback_at(reps, k);
                            assert(spec_min_dim(reps[k]) <= 1);
                        }
                    }
                    assert(spec_first_rep_with_fallback(reps, 100u16) is None);
                }
            },
        }
        i = i + 1;
    }
    final_js.append("\t];\n");
    final_js
}

} // verus!

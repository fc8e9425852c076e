use sdu_openrss::Campus;
use sdu_openrss::Faculty;
use sdu_openrss::date::Date;
use sdu_openrss::html::HtmlElement;
use sdu_openrss::html::HtmlNode;
use sdu_openrss::html::extract_positions;
use sdu_openrss::html::row_position;
use sdu_openrss::parse_positions;

const ROOT: &str = "https://www.sdu.dk";

fn elem(name: &str, children: Vec<HtmlNode>) -> HtmlElement {
    HtmlElement { name: name.to_string(), attributes: Vec::new(), children }
}

fn text_cell(text: &str) -> HtmlNode {
    HtmlNode::Element(elem("td", vec![HtmlNode::Text(text.to_string())]))
}

fn anchor_cell(href: &str, title: &str) -> HtmlNode {
    let anchor = HtmlElement {
        name: "a".to_string(),
        attributes: vec![("href".to_string(), Some(href.to_string()))],
        children: vec![HtmlNode::Text(title.to_string())],
    };
    HtmlNode::Element(elem("td", vec![HtmlNode::Element(anchor)]))
}

fn row(href: &str, title: &str, faculty: &str, campus: &str, deadline: &str) -> HtmlElement {
    elem(
        "tr",
        vec![
            anchor_cell(href, title),
            text_cell(faculty),
            text_cell(campus),
            text_cell(deadline),
        ],
    )
}

#[test]
fn relative_links_are_made_absolute() {
    let r = row("/job/123", "A Job", "Faculty of Science", "Odense", "2023-March-05");
    let p = row_position(&r, ROOT).expect("row should convert");
    assert_eq!(p.link, "https://www.sdu.dk/job/123");
    assert_eq!(p.title, "A Job");
    assert_eq!(p.campus, Campus::Odense);
    assert_eq!(p.faculty, Faculty::Science);
    assert_eq!(p.deadline, Date { year: 2023, month: 3, day: 5 });
    assert_eq!(p.first_seen, None);
}

#[test]
fn absolute_links_pass_through_unchanged() {
    let r = row(
        "https://example.org/job/9",
        "A Job",
        "Faculty of Science",
        "Odense",
        "2023-March-05",
    );
    let p = row_position(&r, ROOT).expect("row should convert");
    assert_eq!(p.link, "https://example.org/job/9");
}

#[test]
fn titles_are_whitespace_collapsed() {
    let r = row("/j", " A \n  spread   out\ttitle ", "SDU Library", "Kolding", "2024-June-01");
    let p = row_position(&r, ROOT).expect("row should convert");
    assert_eq!(p.title, "A spread out title");
}

#[test]
fn faculty_labels_lose_their_entities() {
    let r = row("/j", "T", "Faculty of Business and&nbsp;Social Sciences", "Esbjerg", "2024-May-10");
    let p = row_position(&r, ROOT).expect("row should convert");
    assert_eq!(p.faculty, Faculty::BusinessAndSocialSciences);
}

#[test]
fn bad_rows_are_rejected() {
    // unknown campus
    assert!(row_position(&row("/j", "T", "Faculty of Science", "Atlantis", "2023-March-05"), ROOT)
        .is_none());
    // unknown faculty
    assert!(row_position(&row("/j", "T", "Faculty of Alchemy", "Odense", "2023-March-05"), ROOT)
        .is_none());
    // malformed deadline
    assert!(row_position(&row("/j", "T", "Faculty of Science", "Odense", "someday"), ROOT)
        .is_none());
    // missing cell
    let short = elem("tr", vec![anchor_cell("/j", "T"), text_cell("Faculty of Science")]);
    assert!(row_position(&short, ROOT).is_none());
    // anchor without href
    let anchor = HtmlElement {
        name: "a".to_string(),
        attributes: Vec::new(),
        children: vec![HtmlNode::Text("T".to_string())],
    };
    let no_href = elem(
        "tr",
        vec![
            HtmlNode::Element(elem("td", vec![HtmlNode::Element(anchor)])),
            text_cell("Faculty of Science"),
            text_cell("Odense"),
            text_cell("2023-March-05"),
        ],
    );
    assert!(row_position(&no_href, ROOT).is_none());
    // whitespace-only title
    assert!(row_position(&row("/j", " \n ", "Faculty of Science", "Odense", "2023-March-05"), ROOT)
        .is_none());
}

#[test]
fn traversal_finds_nested_rows_and_keeps_order() {
    let r1 = row("/a", "First", "Faculty of Science", "Odense", "2023-March-05");
    let r2 = row("/b", "Second", "SDU Library", "Kolding", "2023-April-06");
    let tbody = elem(
        "tbody",
        vec![HtmlNode::Element(r1), HtmlNode::Element(r2)],
    );
    let table = elem("table", vec![HtmlNode::Element(tbody)]);
    let nodes = vec![HtmlNode::Element(table)];
    let ps = extract_positions(&nodes, ROOT);
    assert_eq!(ps.len(), 2);
    assert_eq!(ps[0].title, "First");
    assert_eq!(ps[1].title, "Second");
}

#[test]
fn one_bad_row_is_skipped_without_error() {
    let html = "<table><tbody>\
        <tr><td><a href=\"/job/1\">Job One</a></td><td>Faculty of Science</td><td>Odense</td><td>2023-March-05</td></tr>\
        <tr><td><a href=\"/job/2\">Job Two</a></td><td>Faculty of Science</td><td>Atlantis</td><td>2023-March-05</td></tr>\
        </tbody></table>";
    let ps = parse_positions(html, ROOT).expect("document parses");
    assert_eq!(ps.len(), 1);
    assert_eq!(ps[0].link, "https://www.sdu.dk/job/1");
    assert_eq!(ps[0].title, "Job One");
}

#[test]
fn unparseable_documents_are_a_single_error() {
    let bad = "<!DOCTYPE html><html></html><html></html>";
    assert!(parse_positions(bad, ROOT).is_err());
}

#[test]
fn decorative_rows_are_ignored() {
    let html = "<table><tbody>\
        <tr><th>Title</th><th>Faculty</th><th>Campus</th><th>Deadline</th></tr>\
        <tr><td><a href=\"/job/1\">Job One</a></td><td>Faculty of Humanities</td><td>Slagelse</td><td>2025-January-31</td></tr>\
        </tbody></table>";
    let ps = parse_positions(html, ROOT).expect("document parses");
    assert_eq!(ps.len(), 1);
    assert_eq!(ps[0].campus, Campus::Slagelse);
}

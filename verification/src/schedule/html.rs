use crate::utils::text::texts;
use scraper::{ElementRef, Html, Selector};
use vstd::prelude::*;

verus! {

/// A parsed page.
#[verifier::external_type_specification]
#[verifier::external_body]
pub struct ExHtml(Html);

/// An element of a parsed page.
#[verifier::external_type_specification]
#[verifier::external_body]
pub struct ExElementRef<'a>(ElementRef<'a>);

/// The page that a text parses to.
pub uninterp spec fn html_document(html: Seq<char>) -> Html;

/// The elements of a page that match a selector, in document order; none
/// where the selector cannot be read.
pub uninterp spec fn page_selected(page: Html, selector: Seq<char>) -> Seq<ElementRef<'static>>;

/// The elements below an element that match a selector, in document order;
/// none where the selector cannot be read.
pub uninterp spec fn selected_below(element: ElementRef, selector: Seq<char>) -> Seq<ElementRef>;

/// The text nodes below an element, joined in document order.
pub uninterp spec fn element_text_of(element: ElementRef) -> Seq<char>;

/// The value of an attribute of an element, if it has the attribute.
pub uninterp spec fn element_attr_of(element: ElementRef, name: Seq<char>) -> Option<Seq<char>>;

/// `Html::parse_document` of the crate scraper: the page that the text
/// parses to, which depends on the text alone.
#[verifier::external_body]
fn parse_document(html: &str) -> (page: Html)
    ensures
        page == html_document(html@),
{
    Html::parse_document(html)
}

/// `Html::select` of the crate scraper, with the selector that
/// `Selector::parse` reads from `selector`: the elements of the page that
/// match, in document order; none where `selector` cannot be read.
#[verifier::external_body]
fn select_in_page<'a>(page: &'a Html, selector: &str) -> (found: Vec<ElementRef<'a>>)
    ensures
        found@ == page_selected(*page, selector@),
{
    match Selector::parse(selector) {
        Ok(s) => page.select(&s).collect(),
        Err(_) => Vec::new(),
    }
}

/// `ElementRef::select` of the crate scraper, with the selector that
/// `Selector::parse` reads from `selector`: the elements below `element`
/// that match, in document order; none where `selector` cannot be read.
#[verifier::external_body]
fn select_in_element<'a>(element: &ElementRef<'a>, selector: &str) -> (found: Vec<ElementRef<'a>>)
    ensures
        found@ == selected_below(*element, selector@),
{
    match Selector::parse(selector) {
        Ok(s) => element.select(&s).collect(),
        Err(_) => Vec::new(),
    }
}

/// `ElementRef::text` of the crate scraper: the text nodes below the
/// element, joined in document order.
#[verifier::external_body]
fn element_text(element: &ElementRef) -> (text: String)
    ensures
        text@ == element_text_of(*element),
{
    element.text().collect()
}

/// `ElementRef::attr` of the crate scraper: the value of an attribute of
/// the element, if it has the attribute.
#[verifier::external_body]
fn element_attr(element: &ElementRef, name: &str) -> (value: Option<String>)
    ensures
        value is Some <==> element_attr_of(*element, name@) is Some,
        value matches Some(v) ==> element_attr_of(*element, name@) == Some(v@),
{
    element.attr(name).map(String::from)
}

/// A row of a table: the texts of its header cells and of its data cells,
/// and what clicking its first data cell calls.
pub struct PageRow {
    pub headers: Vec<String>,
    pub cells: Vec<String>,
    pub onclick: Option<String>,
}

/// A table of a page: the texts of all its header cells, and its rows.
pub struct PageTable {
    pub header_texts: Vec<String>,
    pub rows: Vec<PageRow>,
}

/// The texts of a list of elements, in order.
pub open spec fn element_texts(found: Seq<ElementRef>) -> Seq<Seq<char>> {
    Seq::new(found.len(), |i: int| element_text_of(found[i]))
}

/// What clicking the first data cell of a row element calls; `None` for a
/// row without data cells.
pub open spec fn row_onclick(row: ElementRef) -> Option<Seq<char>> {
    let cells = selected_below(row, "td"@);
    if cells.len() > 0 {
        element_attr_of(cells[0], "onclick"@)
    } else {
        None
    }
}

/// `row` holds what the row element `element` holds: the texts of its
/// header cells, the texts of its data cells, and the call of its first
/// data cell.
pub open spec fn is_row_of(row: PageRow, element: ElementRef) -> bool {
    &&& texts(row.headers@) == element_texts(selected_below(element, "th"@))
    &&& texts(row.cells@) == element_texts(selected_below(element, "td"@))
    &&& row.onclick is Some <==> row_onclick(element) is Some
    &&& row.onclick matches Some(call) ==> row_onclick(element) == Some(call@)
}

/// `rows` holds what the row elements `found` hold, in order.
pub open spec fn are_rows_of(rows: Seq<PageRow>, found: Seq<ElementRef>) -> bool {
    &&& rows.len() == found.len()
    &&& forall|i: int| 0 <= i < rows.len() ==> is_row_of(#[trigger] rows[i], found[i])
}

/// `table` holds what the table element `element` holds: the texts of all
/// header cells below it, and the rows below it.
pub open spec fn is_table_of(table: PageTable, element: ElementRef) -> bool {
    &&& texts(table.header_texts@) == element_texts(selected_below(element, "th"@))
    &&& are_rows_of(table.rows@, selected_below(element, "tr"@))
}

/// `tables` holds what the table elements `found` hold, in order.
pub open spec fn are_tables_of(tables: Seq<PageTable>, found: Seq<ElementRef>) -> bool {
    &&& tables.len() == found.len()
    &&& forall|i: int| 0 <= i < tables.len() ==> is_table_of(#[trigger] tables[i], found[i])
}

/// The row elements of all tables of the page that a text parses to.
pub open spec fn row_elements(html: Seq<char>) -> Seq<ElementRef<'static>> {
    page_selected(html_document(html), "table tr"@)
}

/// The table elements of the page that a text parses to.
pub open spec fn table_elements(html: Seq<char>) -> Seq<ElementRef<'static>> {
    page_selected(html_document(html), "table"@)
}

/// The texts of the elements `found`, in order.
fn texts_of(found: &Vec<ElementRef>) -> (list: Vec<String>)
    ensures
        texts(list@) == element_texts(found@),
{
    let mut list: Vec<String> = Vec::new();
    let mut i: usize = 0;
    while i < found.len()
        invariant
            0 <= i <= found.len(),
            list@.len() == i,
            forall|j: int| 0 <= j < i ==> (#[trigger] list@[j])@ == element_text_of(found@[j]),
        decreases found.len() - i,
    {
        list.push(element_text(&found[i]));
        i += 1;
    }
    assert(texts(list@) =~= element_texts(found@));
    list
}

/// Reads a row element.
fn read_row(row: &ElementRef) -> (r: PageRow)
    ensures
        is_row_of(r, *row),
{
    let headers = select_in_element(row, "th");
    let cells = select_in_element(row, "td");
    let onclick = if cells.len() > 0 {
        element_attr(&cells[0], "onclick")
    } else {
        None
    };
    PageRow { headers: texts_of(&headers), cells: texts_of(&cells), onclick }
}

/// Reads the row elements among `found`, in order.
fn read_rows(found: &Vec<ElementRef>) -> (rows: Vec<PageRow>)
    ensures
        are_rows_of(rows@, found@),
{
    let mut rows: Vec<PageRow> = Vec::new();
    let mut i: usize = 0;
    while i < found.len()
        invariant
            0 <= i <= found.len(),
            rows@.len() == i,
            forall|j: int| 0 <= j < i ==> is_row_of(#[trigger] rows@[j], found@[j]),
        decreases found.len() - i,
    {
        rows.push(read_row(&found[i]));
        i += 1;
    }
    rows
}

/// The rows of all tables of a page, in document order: for each row
/// element the texts of its header cells and of its data cells, and the
/// call of its first data cell.
pub fn page_rows(html: &str) -> (rows: Vec<PageRow>)
    ensures
        are_rows_of(rows@, row_elements(html@)),
{
    let page = parse_document(html);
    let found = select_in_page(&page, "table tr");
    read_rows(&found)
}

/// The tables of a page, in document order: for each table element the
/// texts of all header cells below it, and its rows.
pub fn page_tables(html: &str) -> (tables: Vec<PageTable>)
    ensures
        are_tables_of(tables@, table_elements(html@)),
{
    let page = parse_document(html);
    let found = select_in_page(&page, "table");
    let mut tables: Vec<PageTable> = Vec::new();
    let mut i: usize = 0;
    while i < found.len()
        invariant
            0 <= i <= found.len(),
            tables@.len() == i,
            forall|j: int| 0 <= j < i ==> is_table_of(#[trigger] tables@[j], found@[j]),
        decreases found.len() - i,
    {
        let headers = select_in_element(&found[i], "th");
        let rows = select_in_element(&found[i], "tr");
        tables.push(PageTable { header_texts: texts_of(&headers), rows: read_rows(&rows) });
        i += 1;
    }
    tables
}

} // verus!

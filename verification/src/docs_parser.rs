//! Request parameters and page content of the documentation service, and
//! what the service makes of a documentation server's reply.

use crate::text::{chars_of, find, find_from, first_occurrence, first_occurrence_from};
use crate::text::{is_first_occurrence_from, piece, text_of};
use crate::text::{join_text, joined, string_views, trim_leading, without_leading};
use vstd::prelude::*;
use vstd::string::StringExecFns;

verus! {

/// Mathematical value of a [`DocsRsParams`]: its three components as
/// character sequences.
pub struct ParamsView {
    pub crate_name: Seq<char>,
    pub version: Seq<char>,
    pub path: Seq<char>,
}

/// Parameters that identify one documentation page: the crate, its version
/// and the path of the page inside the crate's documentation.
#[derive(Debug, Hash)]
pub struct DocsRsParams {
    /// Name of the crate.
    pub crate_name: String,
    /// Version of the crate, e.g. "1.0.0".
    pub version: String,
    /// Path of the page, e.g. "std/vec/struct.Vec.html".
    pub path: String,
}

impl View for DocsRsParams {
    type V = ParamsView;

    open spec fn view(&self) -> ParamsView {
        ParamsView { crate_name: self.crate_name@, version: self.version@, path: self.path@ }
    }
}

impl Clone for DocsRsParams {
    fn clone(&self) -> (copy: Self)
        ensures
            copy@ == self@,
    {
        DocsRsParams {
            crate_name: self.crate_name.clone(),
            version: self.version.clone(),
            path: self.path.clone(),
        }
    }
}

impl PartialEq for DocsRsParams {
    fn eq(&self, other: &Self) -> (same: bool) {
        self.crate_name == other.crate_name && self.version == other.version && self.path
            == other.path
    }
}

impl vstd::std_specs::cmp::PartialEqSpecImpl for DocsRsParams {
    open spec fn obeys_eq_spec() -> bool {
        true
    }

    open spec fn eq_spec(&self, other: &Self) -> bool {
        self@ == other@
    }
}

impl Eq for DocsRsParams {}

/// The text of one documentation page.
#[derive(Debug)]
pub struct DocContent {
    /// The extracted documentation as plain text.
    pub content: String,
}

impl View for DocContent {
    type V = Seq<char>;

    open spec fn view(&self) -> Seq<char> {
        self.content@
    }
}

impl Clone for DocContent {
    fn clone(&self) -> (copy: Self)
        ensures
            copy@ == self@,
    {
        DocContent { content: self.content.clone() }
    }
}

impl PartialEq for DocContent {
    fn eq(&self, other: &Self) -> (same: bool) {
        self.content == other.content
    }
}

impl vstd::std_specs::cmp::PartialEqSpecImpl for DocContent {
    open spec fn obeys_eq_spec() -> bool {
        true
    }

    open spec fn eq_spec(&self, other: &Self) -> bool {
        self@ == other@
    }
}

impl Eq for DocContent {}

/// Why a documentation page could not be had.
#[derive(Debug)]
pub enum DocsFetchError {
    /// The request failed; the field holds the transport's message.
    RequestError(String),
    /// An address could not be formed; the field holds the reason.
    UrlError(String),
    /// The server has no documentation at the place asked for.
    DocsNotFound,
    /// The documentation could not be understood; the field holds the
    /// reason.
    ParseError(String),
}

/// Mathematical value of a [`DocsFetchError`].
pub enum DocsFetchErrorView {
    RequestError(Seq<char>),
    UrlError(Seq<char>),
    DocsNotFound,
    ParseError(Seq<char>),
}

impl View for DocsFetchError {
    type V = DocsFetchErrorView;

    open spec fn view(&self) -> DocsFetchErrorView {
        match self {
            DocsFetchError::RequestError(reason) => DocsFetchErrorView::RequestError(reason@),
            DocsFetchError::UrlError(reason) => DocsFetchErrorView::UrlError(reason@),
            DocsFetchError::DocsNotFound => DocsFetchErrorView::DocsNotFound,
            DocsFetchError::ParseError(reason) => DocsFetchErrorView::ParseError(reason@),
        }
    }
}

/// The text that describes an error.
pub open spec fn error_text(error: DocsFetchErrorView) -> Seq<char> {
    match error {
        DocsFetchErrorView::RequestError(reason) => "Request error: "@ + reason,
        DocsFetchErrorView::UrlError(reason) => "Invalid URL: "@ + reason,
        DocsFetchErrorView::DocsNotFound => "Failed to find documentation"@,
        DocsFetchErrorView::ParseError(reason) => "Failed to parse documentation: "@ + reason,
    }
}

impl DocsFetchError {
    /// The text that describes the error.
    pub fn message(&self) -> (text: String)
        ensures
            text@ == error_text(self@),
    {
        match self {
            DocsFetchError::RequestError(reason) => {
                let mut text = "Request error: ".to_owned();
                text.append(reason.as_str());
                text
            },
            DocsFetchError::UrlError(reason) => {
                let mut text = "Invalid URL: ".to_owned();
                text.append(reason.as_str());
                text
            },
            DocsFetchError::DocsNotFound => "Failed to find documentation".to_owned(),
            DocsFetchError::ParseError(reason) => {
                let mut text = "Failed to parse documentation: ".to_owned();
                text.append(reason.as_str());
                text
            },
        }
    }
}

/// What came of a request for a documentation page.
#[derive(Debug)]
pub enum HttpReply {
    /// No reply came; the field holds the transport's message.
    Failed(String),
    /// A reply came whose status is no success.
    Refused,
    /// A reply came with a success status, but its body could not be read;
    /// the field holds the transport's message.
    Unreadable(String),
    /// A reply came with a success status; the field holds its body.
    Page(String),
}

/// Mathematical value of an [`HttpReply`].
pub enum HttpReplyView {
    Failed(Seq<char>),
    Refused,
    Unreadable(Seq<char>),
    Page(Seq<char>),
}

impl View for HttpReply {
    type V = HttpReplyView;

    open spec fn view(&self) -> HttpReplyView {
        match self {
            HttpReply::Failed(reason) => HttpReplyView::Failed(reason@),
            HttpReply::Refused => HttpReplyView::Refused,
            HttpReply::Unreadable(reason) => HttpReplyView::Unreadable(reason@),
            HttpReply::Page(body) => HttpReplyView::Page(body@),
        }
    }
}

/// The text nodes below the first element of the HTML document `html` that
/// the CSS selector `selector` matches, in document order; none where the
/// selector is no selector or matches no element.
pub uninterp spec fn selected_text(html: Seq<char>, selector: Seq<char>) -> Option<Seq<Seq<char>>>;

/// Parses `html` as a document with `scraper::Html::parse_document` and
/// `selector` with `scraper::Selector::parse`, takes the first element that
/// `Html::select` yields and collects the text nodes that `ElementRef::text`
/// walks over. The contract gives this result its name and claims no more:
/// that it depends on the two texts alone.
#[verifier::external_body]
fn select_first_text(html: &str, selector: &str) -> (texts: Option<Vec<String>>)
    ensures
        match texts {
            Some(parts) => selected_text(html@, selector@) == Some(string_views(parts@)),
            None => selected_text(html@, selector@) is None,
        },
{
    let document = scraper::Html::parse_document(html);
    let selector = scraper::Selector::parse(selector).ok()?;
    let element = document.select(&selector).next()?;
    Some(element.text().map(|text| text.to_string()).collect())
}

/// The selector of the element that holds the documentation in a page that
/// rustdoc made.
pub open spec fn rustdoc_selector() -> Seq<char> {
    "#rustdoc_body_wrapper"@
}

/// The documentation that a page holds, given the text nodes of its
/// documentation element: the text nodes joined by single spaces.
pub open spec fn rustdoc_text(texts: Option<Seq<Seq<char>>>) -> Option<Seq<char>> {
    match texts {
        Some(parts) => Some(joined(parts, " "@)),
        None => None,
    }
}

/// The address of a page: base address, crate, version and the path without
/// the slashes that it begins with, with one slash between each two.
pub open spec fn page_url(base_url: Seq<char>, params: ParamsView) -> Seq<char> {
    base_url + "/"@ + params.crate_name + "/"@ + params.version + "/"@ + trim_leading(
        params.path,
        '/',
    )
}

/// The content that stands for a page in which no documentation was found.
pub open spec fn fallback_content(url: Seq<char>) -> Seq<char> {
    "Documentation available at "@ + url
}

/// The content of a page at address `url`: the documentation found in it,
/// or else the fallback content.
pub open spec fn page_content(url: Seq<char>, found: Option<Seq<char>>) -> Seq<char> {
    match found {
        Some(text) => text,
        None => fallback_content(url),
    }
}

/// What a reply to the request for the page at `url` amounts to, given the
/// documentation `found` in the body of a page.
pub open spec fn reply_outcome(
    url: Seq<char>,
    reply: HttpReplyView,
    found: Option<Seq<char>>,
) -> Result<Seq<char>, DocsFetchErrorView> {
    match reply {
        HttpReplyView::Failed(reason) => Err(DocsFetchErrorView::RequestError(reason)),
        HttpReplyView::Refused => Err(DocsFetchErrorView::DocsNotFound),
        HttpReplyView::Unreadable(reason) => Err(DocsFetchErrorView::RequestError(reason)),
        HttpReplyView::Page(_) => Ok(page_content(url, found)),
    }
}

/// The body of a reply, if it has one; the empty text else.
pub open spec fn reply_body(reply: HttpReplyView) -> Seq<char> {
    match reply {
        HttpReplyView::Page(body) => body,
        _ => Seq::empty(),
    }
}

/// The text nodes joined into the documentation of a page.
pub fn join_rustdoc_text(texts: Option<Vec<String>>) -> (found: Option<String>)
    ensures
        text_of(found) == rustdoc_text(
            match texts {
                Some(parts) => Some(string_views(parts@)),
                None => None,
            },
        ),
{
    match texts {
        Some(parts) => Some(join_text(&parts, " ")),
        None => None,
    }
}

/// The content of the page at `url`, given the documentation found in it.
pub fn content_of_page(url: &str, found: Option<String>) -> (content: DocContent)
    ensures
        content@ == page_content(url@, text_of(found)),
{
    match found {
        Some(text) => DocContent { content: text },
        None => {
            let mut content = "Documentation available at ".to_owned();
            content.append(url);
            DocContent { content }
        },
    }
}

/// The closing tag `close` cannot begin inside the opening tag `open`: the
/// two begin alike, differ in their second character, and the first
/// character of `close` stands nowhere else in `open`.
pub open spec fn begins_apart(open: Seq<char>, close: Seq<char>) -> bool {
    &&& open.len() >= 2
    &&& close.len() >= 2
    &&& open[1] != close[1]
    &&& forall|k: int| 1 <= k < open.len() ==> open[k] != close[0]
}

/// The text between the first `open` at or after position `from` of `html`
/// and the first `close` after it; none where one of the two is missing.
pub open spec fn enclosed_from(
    html: Seq<char>,
    open: Seq<char>,
    close: Seq<char>,
    from: int,
) -> Option<Seq<char>> {
    match first_occurrence_from(html, open, from) {
        Some(start) => match first_occurrence_from(html, close, start) {
            Some(end) => Some(html.subrange(start + open.len(), end)),
            None => None,
        },
        None => None,
    }
}

/// The text between the first `open` of `html` and the first `close` after
/// it.
pub open spec fn enclosed(html: Seq<char>, open: Seq<char>, close: Seq<char>) -> Option<
    Seq<char>,
> {
    enclosed_from(html, open, close, 0)
}

/// The opening tag of a function's signature.
pub open spec fn signature_open() -> Seq<char> {
    "<pre class=\"rust fn\">"@
}

/// The opening tag of a description.
pub open spec fn description_open() -> Seq<char> {
    "<div class=\"docblock\">"@
}

/// The heading of the examples.
pub open spec fn examples_heading() -> Seq<char> {
    "<h3>Examples</h3>"@
}

/// The opening tag of an example.
pub open spec fn example_open() -> Seq<char> {
    "<pre class=\"rust\">"@
}

/// The examples of a page: the text of the first example block after the
/// heading of the examples, where the page has both.
pub open spec fn examples_of(html: Seq<char>) -> Option<Seq<Seq<char>>> {
    match first_occurrence(html, examples_heading()) {
        Some(heading) => match enclosed_from(html, example_open(), "</pre>"@, heading) {
            Some(example) => Some(seq![example]),
            None => None,
        },
        None => None,
    }
}

/// The views of a list of strings that may be missing.
pub open spec fn texts_of(found: Option<Vec<String>>) -> Option<Seq<Seq<char>>> {
    match found {
        Some(texts) => Some(string_views(texts@)),
        None => None,
    }
}

/// Cuts out of the page `html`, whose characters are `text`, what stands
/// between the first `open` at or after `from` and the first `close` after
/// it.
fn enclosed_text(
    html: &str,
    text: &Vec<char>,
    open: &Vec<char>,
    close: &Vec<char>,
    from: usize,
) -> (found: Option<String>)
    requires
        text@ == html@,
        begins_apart(open@, close@),
    ensures
        text_of(found) == enclosed_from(html@, open@, close@, from as int),
{
    match find_from(text, open, from) {
        Some(start) => match find_from(text, close, start) {
            Some(end) => {
                proof {
                    assert(is_first_occurrence_from(text@, open@, from as int, start as int));
                    assert(is_first_occurrence_from(text@, close@, start as int, end as int));
                    let inside = end - start;
                    let tag = text@.subrange(start as int, start + open@.len());
                    let tail = text@.subrange(end as int, end + close@.len());
                    if inside < open@.len() {
                        assert(tail[0] == close@[0]);
                        assert(tag[inside] == open@[inside]);
                        if inside == 0 {
                            assert(tail[1] == close@[1]);
                            assert(tag[1] == open@[1]);
                        }
                    }
                }
                Some(piece(html, start + open.len(), end))
            },
            None => None,
        },
        None => None,
    }
}

/// In each pair of tags that a page is cut at, the closing tag cannot begin
/// inside the opening tag.
proof fn lemma_tags_begin_apart()
    ensures
        begins_apart(signature_open(), "</pre>"@),
        begins_apart(description_open(), "</div>"@),
        begins_apart(example_open(), "</pre>"@),
{
    reveal_strlit("<pre class=\"rust fn\">");
    reveal_strlit("<div class=\"docblock\">");
    reveal_strlit("<pre class=\"rust\">");
    reveal_strlit("</pre>");
    reveal_strlit("</div>");
}

/// A client of a documentation server. It knows the server's base address,
/// forms the address of a page and reads the server's reply; sending the
/// request is left to its user.
#[derive(Debug)]
pub struct DocsRsClient {
    base_url: String,
}

impl DocsRsClient {
    /// The base address of the server.
    pub closed spec fn base(&self) -> Seq<char> {
        self.base_url@
    }

    /// A client of `https://docs.rs`.
    pub fn new() -> (client: Self)
        ensures
            client.base() == "https://docs.rs"@,
    {
        DocsRsClient { base_url: "https://docs.rs".to_owned() }
    }

    /// A client of the server at `base_url`.
    pub fn new_with_base_url(base_url: &str) -> (client: Self)
        ensures
            client.base() == base_url@,
    {
        DocsRsClient { base_url: base_url.to_owned() }
    }

    /// The base address of the server.
    pub fn base_url(&self) -> (base_url: &str)
        ensures
            base_url@ == self.base(),
    {
        self.base_url.as_str()
    }

    /// The address at which the server has the page `params`.
    pub fn docs_url(&self, params: &DocsRsParams) -> (url: String)
        ensures
            url@ == page_url(self.base(), params@),
    {
        let mut url = self.base_url.clone();
        url.append("/");
        url.append(params.crate_name.as_str());
        url.append("/");
        url.append(params.version.as_str());
        url.append("/");
        let path = without_leading(params.path.as_str(), '/');
        url.append(path.as_str());
        url
    }

    /// The documentation that the page `html` holds: the text nodes of the
    /// element `#rustdoc_body_wrapper`, joined by single spaces. There is
    /// none where the page has no such element.
    pub fn extract_rustdoc_content(&self, html: &str) -> (found: Option<String>)
        ensures
            text_of(found) == rustdoc_text(selected_text(html@, rustdoc_selector())),
    {
        join_rustdoc_text(select_first_text(html, "#rustdoc_body_wrapper"))
    }

    /// Cuts the signature of a function, the description and the examples
    /// out of the page `html`, each where the page has it.
    ///
    /// The signature stands between the first `<pre class="rust fn">` and the
    /// first `</pre>` after it, the description between the first
    /// `<div class="docblock">` and the first `</div>` after it. The examples
    /// are the text between the first `<pre class="rust">` after the heading
    /// `<h3>Examples</h3>` and the first `</pre>` after it. No page is
    /// refused.
    pub fn parse_html_content(&self, html: &str) -> (parsed: Result<
        (Option<String>, Option<String>, Option<Vec<String>>),
        DocsFetchError,
    >)
        ensures
            parsed matches Ok((signature, description, examples)) && {
                &&& text_of(signature) == enclosed(html@, signature_open(), "</pre>"@)
                &&& text_of(description) == enclosed(html@, description_open(), "</div>"@)
                &&& texts_of(examples) == examples_of(html@)
            },
    {
        let text = chars_of(html);
        let signature_open = chars_of("<pre class=\"rust fn\">");
        let description_open = chars_of("<div class=\"docblock\">");
        let heading = chars_of("<h3>Examples</h3>");
        let example_open = chars_of("<pre class=\"rust\">");
        let pre_close = chars_of("</pre>");
        let div_close = chars_of("</div>");
        proof {
            lemma_tags_begin_apart();
        }
        let signature = enclosed_text(html, &text, &signature_open, &pre_close, 0);
        let description = enclosed_text(html, &text, &description_open, &div_close, 0);
        let examples = match find(&text, &heading) {
            Some(at) => match enclosed_text(html, &text, &example_open, &pre_close, at) {
                Some(example) => {
                    let mut examples: Vec<String> = Vec::new();
                    examples.push(example);
                    assert(string_views(examples@) =~= seq![example@]);
                    Some(examples)
                },
                None => None,
            },
            None => None,
        };
        Ok((signature, description, examples))
    }

    /// Reads the server's reply to the request for the page `params`.
    ///
    /// A reply that did not come, or whose body could not be read, is a
    /// request error with the transport's message; a reply whose status is
    /// no success means that the documentation was not found. The body of
    /// any other reply gives the page's content: the documentation found in
    /// it, or else a line that names the page's address.
    pub fn fetch_docs(&self, params: DocsRsParams, reply: HttpReply) -> (outcome: Result<
        DocContent,
        DocsFetchError,
    >)
        ensures
            match outcome {
                Ok(content) => reply_outcome(
                    page_url(self.base(), params@),
                    reply@,
                    rustdoc_text(selected_text(reply_body(reply@), rustdoc_selector())),
                ) == Ok::<Seq<char>, DocsFetchErrorView>(content@),
                Err(error) => reply_outcome(
                    page_url(self.base(), params@),
                    reply@,
                    rustdoc_text(selected_text(reply_body(reply@), rustdoc_selector())),
                ) == Err::<Seq<char>, DocsFetchErrorView>(error@),
            },
    {
        match reply {
            HttpReply::Failed(reason) => Err(DocsFetchError::RequestError(reason)),
            HttpReply::Refused => Err(DocsFetchError::DocsNotFound),
            HttpReply::Unreadable(reason) => Err(DocsFetchError::RequestError(reason)),
            HttpReply::Page(body) => {
                let url = self.docs_url(&params);
                let found = self.extract_rustdoc_content(body.as_str());
                Ok(content_of_page(url.as_str(), found))
            },
        }
    }
}

} // verus!

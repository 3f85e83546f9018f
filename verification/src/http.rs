//! What is shown of the response to an HTTP request.
use vstd::prelude::*;
use vstd::utf8::{decode_utf8, valid_utf8};

verus! {

/// Response from a completed HTTP request.
#[derive(Clone, Debug)]
pub struct Response {
    /// The URL we ended up at. This can differ from the request url when we have followed redirects.
    pub url: String,
    /// Did we get a 2xx response code?
    pub ok: bool,
    /// Status code (e.g. `404` for "File not found").
    pub status: u16,
    /// Status text (e.g. "File not found" for status code `404`).
    pub status_text: String,
    /// The returned headers, as name-value pairs.
    pub headers: Vec<(String, String)>,
    /// The raw bytes of the response body.
    pub bytes: Vec<u8>,
}

/// The headers of a response.
pub open spec fn header_list(headers: Seq<(String, String)>) -> Seq<(Seq<char>, Seq<char>)> {
    headers.map_values(|header: (String, String)| (header.0@, header.1@))
}

/// A letter of ASCII in lower case; any other character as it is.
pub open spec fn ascii_lower(c: char) -> char {
    if 'A' <= c <= 'Z' {
        (c as u32 + 32) as char
    } else {
        c
    }
}

/// The texts are the same but for the case of letters of ASCII.
pub open spec fn same_ignoring_case(a: Seq<char>, b: Seq<char>) -> bool {
    &&& a.len() == b.len()
    &&& forall|k: int| #![trigger a[k]] #![trigger b[k]]
        0 <= k < a.len() ==> ascii_lower(a[k]) == ascii_lower(b[k])
}

/// The value of the first header whose name is as wanted.
pub open spec fn first_value(
    headers: Seq<(Seq<char>, Seq<char>)>,
    wanted: spec_fn(Seq<char>) -> bool,
) -> Option<Seq<char>>
    decreases headers.len(),
{
    if headers.len() == 0 {
        None
    } else if wanted(headers[0].0) {
        Some(headers[0].1)
    } else {
        first_value(headers.drop_first(), wanted)
    }
}

/// What an optional string holds.
pub open spec fn held(text: Option<String>) -> Option<Seq<char>> {
    match text {
        Some(text) => Some(text@),
        None => None,
    }
}

/// `ehttp::Response::content_type`, on a response with these headers: the value
/// of the first header "content-type", in whatever case. It compares names in
/// lower case, and no character outside ASCII has a lower case that is made of
/// the characters of this name.
#[verifier::external_body]
fn content_type(headers: &Vec<(String, String)>) -> (r: Option<String>)
    ensures
        held(r) == first_value(
            header_list(headers@),
            |name: Seq<char>| same_ignoring_case(name, "content-type"@),
        ),
{
    let response = ehttp::Response {
        url: String::new(),
        ok: true,
        status: 0,
        status_text: String::new(),
        headers: ehttp::Headers { headers: headers.clone() },
        bytes: Vec::new(),
    };
    response.content_type().map(|value| value.to_owned())
}

/// `ehttp::Response::text`, on a response with these bytes: the text that they
/// encode in UTF-8, if they do.
#[verifier::external_body]
fn text(bytes: &Vec<u8>) -> (r: Option<String>)
    ensures
        held(r) == (if valid_utf8(bytes@) {
            Some(decode_utf8(bytes@))
        } else {
            None
        }),
{
    let response = ehttp::Response {
        url: String::new(),
        ok: true,
        status: 0,
        status_text: String::new(),
        headers: ehttp::Headers::default(),
        bytes: bytes.clone(),
    };
    response.text().map(|text| text.to_owned())
}

/// The decimal digits of a number.
pub open spec fn decimal(n: nat) -> Seq<char>
    decreases n,
{
    let digit = (48 + n % 10) as char;
    if n < 10 {
        seq![digit]
    } else {
        decimal(n / 10).push(digit)
    }
}

/// One digit.
fn digit(d: u16) -> (r: &'static str)
    requires
        d < 10,
    ensures
        r@ == seq![(48 + d) as char],
{
    proof {
        reveal_strlit("0");
        reveal_strlit("1");
        reveal_strlit("2");
        reveal_strlit("3");
        reveal_strlit("4");
        reveal_strlit("5");
        reveal_strlit("6");
        reveal_strlit("7");
        reveal_strlit("8");
        reveal_strlit("9");
    }
    let r = match d {
        0 => "0",
        1 => "1",
        2 => "2",
        3 => "3",
        4 => "4",
        5 => "5",
        6 => "6",
        7 => "7",
        8 => "8",
        _ => "9",
    };
    assert(r@ =~= seq![(48 + d) as char]);
    r
}

/// The number in decimal, without leading zeros.
fn digits(n: u16) -> (r: String)
    ensures
        r@ == decimal(n as nat),
    decreases n,
{
    if n < 10 {
        digit(n).to_owned()
    } else {
        let mut r = digits(n / 10);
        let ghost before = r@;
        r.append(digit(n % 10));
        assert(r@ =~= before.push((48 + n % 10) as char));
        r
    }
}

/// The text starts with that.
pub open spec fn starts_with(text: Seq<char>, start: Seq<char>) -> bool {
    start.is_prefix_of(text)
}

fn begins(text: &str, start: &str) -> (r: bool)
    ensures
        r == starts_with(text@, start@),
{
    let len = start.unicode_len();
    if text.unicode_len() < len {
        return false;
    }
    let mut k: usize = 0;
    while k < len
        invariant
            len == start@.len(),
            len <= text@.len(),
            k <= len,
            forall|j: int| 0 <= j < k ==> text@[j] == start@[j],
        decreases len - k,
    {
        if text.get_char(k) != start.get_char(k) {
            assert(text@[k as int] != start@[k as int]);
            return false;
        }
        k = k + 1;
    }
    assert(start@ =~= text@.subrange(0, start@.len() as int));
    true
}

/// What follows the last dot; all of it, if there is none.
pub open spec fn extension_of(url: Seq<char>) -> Seq<char>
    decreases url.len(),
{
    if url.len() == 0 || url.last() == '.' {
        Seq::empty()
    } else {
        extension_of(url.drop_last()).push(url.last())
    }
}

/// No dot is in the extension, and what stands before it is empty or ends in one.
pub proof fn law_extension(url: Seq<char>)
    ensures
        !extension_of(url).contains('.'),
        extension_of(url).is_suffix_of(url),
        ({
            let rest = url.len() - extension_of(url).len();
            rest == 0 || url[rest - 1] == '.'
        }),
    decreases url.len(),
{
    let extension = extension_of(url);
    if url.len() == 0 || url.last() == '.' {
        assert(extension =~= url.subrange(url.len() as int, url.len() as int));
    } else {
        law_extension(url.drop_last());
        let shorter = extension_of(url.drop_last());
        assert forall|j: int| 0 <= j < extension.len() implies extension[j] != '.' by {
            if j < shorter.len() {
                assert(shorter[j] == extension[j]);
                assert(shorter.contains(shorter[j]));
            }
        }
        let rest = url.len() - extension.len();
        assert forall|j: int| 0 <= j < extension.len() implies extension[j] == url[rest + j] by {
            if j < shorter.len() {
                assert(shorter[j] == url.drop_last()[rest + j]);
            }
        }
        assert(extension =~= url.subrange(rest, url.len() as int));
    }
}

/// What follows the last dot of the URL; all of it, if there is none.
pub fn extension(url: &str) -> (r: String)
    ensures
        r@ == extension_of(url@),
{
    let len = url.unicode_len();
    let mut start: usize = len;
    assert(url@.subrange(len as int, len as int) =~= Seq::<char>::empty());
    while start > 0
        invariant_except_break
            forall|j: int| start <= j < len ==> url@[j] != '.',
        invariant
            len == url@.len(),
            start <= len,
        ensures
            start == 0 || url@[start - 1] == '.',
            forall|j: int| start <= j < len ==> url@[j] != '.',
        decreases start,
    {
        if url.get_char(start - 1) == '.' {
            break;
        }
        start = start - 1;
    }
    proof {
        lemma_extension_from(url@, start as int);
    }
    url.substring_char(start, len).to_owned()
}

proof fn lemma_extension_from(url: Seq<char>, start: int)
    requires
        0 <= start <= url.len(),
        start == 0 || url[start - 1] == '.',
        forall|j: int| start <= j < url.len() ==> url[j] != '.',
    ensures
        extension_of(url) == url.subrange(start, url.len() as int),
    decreases url.len(),
{
    if start < url.len() {
        assert(url[url.len() - 1] != '.');
        lemma_extension_from(url.drop_last(), start);
        assert(url.drop_last().subrange(start, url.len() - 1).push(url.last()) =~= url.subrange(
            start,
            url.len() as int,
        ));
    } else {
        assert(url.subrange(start, url.len() as int) =~= Seq::<char>::empty());
    }
}

/// A response, and what can be shown of its body.
#[derive(Clone, Debug)]
pub struct Resource {
    /// HTTP response
    pub response: Response,
    /// The body, if it is text and no image.
    pub text: Option<String>,
    /// If set, the response was an image.
    pub image: bool,
    /// If set, the response was text with some supported syntax highlighting, by this extension.
    pub highlighted_as: Option<String>,
}

/// The content type of a response; it is empty if the response has none.
pub open spec fn content_type_of(response: Response) -> Seq<char> {
    match first_value(
        header_list(response.headers@),
        |name: Seq<char>| same_ignoring_case(name, "content-type"@),
    ) {
        Some(value) => value,
        None => Seq::empty(),
    }
}

/// The text of a response, if its body is text.
pub open spec fn text_of(response: Response) -> Option<Seq<char>> {
    if valid_utf8(response.bytes@) {
        Some(decode_utf8(response.bytes@))
    } else {
        None
    }
}

/// How the body of a response is shown.
#[derive(Clone, Copy, Debug, PartialEq, Eq, Structural)]
pub enum Body {
    Image,
    Highlighted,
    Text,
    Binary,
}

/// The extension is one whose syntax can be highlighted.
pub open spec fn supports(supported: Seq<String>, extension: Seq<char>) -> bool {
    exists|k: int| 0 <= k < supported.len() && #[trigger] supported[k]@ == extension
}

/// The languages whose syntax is highlighted, each by an extension that their
/// texts have or by its name.
pub open spec fn languages() -> Seq<Seq<char>> {
    seq![
        "c"@,
        "h"@,
        "hpp"@,
        "cpp"@,
        "c++"@,
        "py"@,
        "python"@,
        "rs"@,
        "rust"@,
        "toml"@,
        "md"@,
    ]
}

/// The extension is one of a language whose syntax is highlighted, in whatever
/// case.
pub open spec fn highlightable(extension: Seq<char>) -> bool {
    exists|k: int| 0 <= k < languages().len() && same_ignoring_case(
        extension,
        #[trigger] languages()[k],
    )
}

/// A letter of ASCII in lower case; any other character as it is.
fn to_lower(c: char) -> (r: char)
    ensures
        r == ascii_lower(c),
{
    if 'A' <= c && c <= 'Z' {
        (c as u8 + 32) as char
    } else {
        c
    }
}

/// The texts are the same but for the case of letters of ASCII.
fn equal_ignoring_case(a: &str, b: &str) -> (r: bool)
    ensures
        r == same_ignoring_case(a@, b@),
{
    let size = a.unicode_len();
    if size != b.unicode_len() {
        return false;
    }
    let mut k: usize = 0;
    while k < size
        invariant
            k <= size,
            size == a@.len(),
            size == b@.len(),
            forall|j: int| #![trigger a@[j]] #![trigger b@[j]]
                0 <= j < k ==> ascii_lower(a@[j]) == ascii_lower(b@[j]),
        decreases size - k,
    {
        if to_lower(a.get_char(k)) != to_lower(b.get_char(k)) {
            assert(ascii_lower(a@[k as int]) != ascii_lower(b@[k as int]));
            return false;
        }
        k = k + 1;
    }
    true
}

fn is_highlightable(extension: &str) -> (r: bool)
    ensures
        r == highlightable(extension@),
{
    let names = ["c", "h", "hpp", "cpp", "c++", "py", "python", "rs", "rust", "toml", "md"];
    let mut k: usize = 0;
    while k < 11
        invariant
            k <= 11,
            names@ == seq![
                "c",
                "h",
                "hpp",
                "cpp",
                "c++",
                "py",
                "python",
                "rs",
                "rust",
                "toml",
                "md",
            ],
            forall|j: int| 0 <= j < k ==> !same_ignoring_case(extension@, #[trigger] languages()[j]),
        decreases 11 - k,
    {
        assert(names@[k as int]@ == languages()[k as int]);
        if equal_ignoring_case(extension, names[k]) {
            return true;
        }
        k = k + 1;
    }
    false
}

/// What of the URL can be highlighted: its extension, if that is one of a language
/// whose syntax is highlighted.
pub fn supported_for(url: &str) -> (r: Vec<String>)
    ensures
        supports(r@, extension_of(url@)) == highlightable(extension_of(url@)),
        forall|k: int| #![trigger r@[k]] 0 <= k < r@.len() ==> r@[k]@ == extension_of(url@),
        r@.len() <= 1,
{
    let extension = extension(url);
    let mut r: Vec<String> = Vec::new();
    if is_highlightable(extension.as_str()) {
        r.push(extension);
        assert(r@[0]@ == extension_of(url@));
    }
    r
}

/// The resource is what its response makes it: an image, if the content type says
/// so; otherwise text, if the body is text, and highlighted by the extension of
/// the URL, if that is supported.
pub open spec fn stems_from(r: Resource, response: Response, supported: Seq<String>) -> bool {
    &&& r.response == response
    &&& r.image == starts_with(content_type_of(response), "image/"@)
    &&& held(r.text) == (if r.image {
        None
    } else {
        text_of(response)
    })
    &&& r.highlighted_as is Some <==> !r.image && text_of(response) is Some && supports(
        supported,
        extension_of(response.url@),
    )
    &&& r.highlighted_as is Some ==> r.highlighted_as->0@ == extension_of(response.url@)
}

/// How the body of a resource is shown.
pub open spec fn shown_as(r: Resource) -> Body {
    if r.image {
        Body::Image
    } else if r.highlighted_as is Some {
        Body::Highlighted
    } else if r.text is Some {
        Body::Text
    } else {
        Body::Binary
    }
}

fn is_supported(supported: &Vec<String>, extension: &String) -> (r: bool)
    ensures
        r == supports(supported@, extension@),
{
    let mut k: usize = 0;
    while k < supported.len()
        invariant
            k <= supported@.len(),
            forall|j: int| 0 <= j < k ==> #[trigger] supported@[j]@ != extension@,
        decreases supported@.len() - k,
    {
        if supported[k] == *extension {
            return true;
        }
        k = k + 1;
    }
    false
}

impl Resource {
    /// A resource of that content type and text: what the response is worked out
    /// to be once these are known, where the syntax of texts with the extensions
    /// in `supported` can be highlighted.
    pub fn assemble(
        response: Response,
        content_type: &str,
        text: Option<String>,
        supported: &Vec<String>,
    ) -> (r: Resource)
        ensures
            r.response == response,
            r.image == starts_with(content_type@, "image/"@),
            r.image ==> r.text is None,
            !r.image ==> r.text == text,
            r.highlighted_as is Some <==> !r.image && text is Some && supports(
                supported@,
                extension_of(response.url@),
            ),
            r.highlighted_as is Some ==> r.highlighted_as->0@ == extension_of(response.url@),
    {
        if begins(content_type, "image/") {
            Resource { response, text: None, image: true, highlighted_as: None }
        } else {
            let extension = extension(response.url.as_str());
            let highlighted_as = if text.is_some() && is_supported(supported, &extension) {
                Some(extension)
            } else {
                None
            };
            Resource { response, text, image: false, highlighted_as }
        }
    }

    /// An image, if the content type says so; otherwise text, if the body is
    /// text, and highlighted by the extension of the URL, if that is one of those
    /// in `supported`.
    pub fn from_response(response: Response, supported: &Vec<String>) -> (r: Resource)
        ensures
            stems_from(r, response, supported@),
    {
        let content_type = response.content_type();
        let text = text(&response.bytes);
        Resource::assemble(response, content_type.as_str(), text, supported)
    }

    /// How the body is shown.
    pub fn body(&self) -> (r: Body)
        ensures
            r == shown_as(*self),
            r == Body::Image <==> self.image,
            r == Body::Highlighted <==> !self.image && self.highlighted_as is Some,
            r == Body::Text <==> !self.image && self.highlighted_as is None && self.text is Some,
            r == Body::Binary <==> !self.image && self.highlighted_as is None && self.text is None,
    {
        if self.image {
            Body::Image
        } else if self.highlighted_as.is_some() {
            Body::Highlighted
        } else if self.text.is_some() {
            Body::Text
        } else {
            Body::Binary
        }
    }
}

/// The line that shows the URL of a response.
pub open spec fn line_of_url(response: Response) -> Seq<char> {
    "url:          "@ + response.url@
}

/// The line that shows the status of a response.
pub open spec fn line_of_status(response: Response) -> Seq<char> {
    "status:       "@ + decimal(response.status as nat) + " ("@ + response.status_text@ + ")"@
}

/// The line that shows the content type of a response.
pub open spec fn line_of_content_type(response: Response) -> Seq<char> {
    "content-type: "@ + content_type_of(response)
}

/// What stands in the address bar after the button for a random image was pressed
/// or not.
pub open spec fn address_after(url: Seq<char>, random_clicked: bool, seed: Seq<char>) -> Seq<
    char,
> {
    if random_clicked {
        "https://picsum.photos/seed/"@ + seed + "/640"@
    } else {
        url
    }
}

/// Whether what stands in the address bar is fetched.
pub open spec fn fetches(lost_focus: bool, random_clicked: bool) -> bool {
    lost_focus || random_clicked
}

impl Response {
    /// The content type; it is empty if the response has none.
    pub fn content_type(&self) -> (r: String)
        ensures
            r@ == content_type_of(*self),
    {
        match content_type(&self.headers) {
            Some(value) => value,
            None => String::new(),
        }
    }

    /// The line that shows the URL.
    pub fn url_line(&self) -> (r: String)
        ensures
            r@ == "url:          "@ + self.url@,
            r@ == line_of_url(*self),
    {
        let mut line = "url:          ".to_owned();
        line.append(self.url.as_str());
        line
    }

    /// The line that shows the status.
    pub fn status_line(&self) -> (r: String)
        ensures
            r@ == "status:       "@ + decimal(self.status as nat) + " ("@ + self.status_text@
                + ")"@,
            r@ == line_of_status(*self),
    {
        let mut line = "status:       ".to_owned();
        line.append(digits(self.status).as_str());
        line.append(" (");
        line.append(self.status_text.as_str());
        line.append(")");
        line
    }

    /// The line that shows the content type.
    pub fn content_type_line(&self) -> (r: String)
        ensures
            r@ == "content-type: "@ + content_type_of(*self),
            r@ == line_of_content_type(*self),
    {
        let mut line = "content-type: ".to_owned();
        line.append(self.content_type().as_str());
        line
    }
}

/// A response is shown as an image exactly if its content type says so, as
/// highlighted text exactly if it is no image but text whose extension is
/// supported, as plain text exactly if it is any other text, and otherwise as
/// binary.
pub proof fn law_body_of_response(response: Response, supported: Seq<String>, r: Resource)
    requires
        stems_from(r, response, supported),
    ensures
        shown_as(r) == (if starts_with(content_type_of(response), "image/"@) {
            Body::Image
        } else if !valid_utf8(response.bytes@) {
            Body::Binary
        } else if supports(supported, extension_of(response.url@)) {
            Body::Highlighted
        } else {
            Body::Text
        }),
{
}

/// Where the supported extensions are those for the URL, text is highlighted
/// exactly if its extension is one of a language, in whatever case.
pub proof fn law_languages_are_highlighted(
    response: Response,
    supported: Seq<String>,
    r: Resource,
)
    requires
        stems_from(r, response, supported),
        supports(supported, extension_of(response.url@)) == highlightable(
            extension_of(response.url@),
        ),
    ensures
        shown_as(r) is Highlighted <==> {
            &&& !starts_with(content_type_of(response), "image/"@)
            &&& valid_utf8(response.bytes@)
            &&& highlightable(extension_of(response.url@))
        },
{
    law_body_of_response(response, supported, r);
}

/// What the address bar leads to: `seed` picks the random image, where that is
/// asked for, and the result says whether to fetch.
pub fn ui_url(url: &mut String, lost_focus: bool, random_clicked: bool, seed: &str) -> (r: bool)
    ensures
        r == (lost_focus || random_clicked),
        !random_clicked ==> *final(url) == *old(url),
        random_clicked ==> final(url)@ == "https://picsum.photos/seed/"@ + seed@ + "/640"@,
        r == fetches(lost_focus, random_clicked),
        final(url)@ == address_after(old(url)@, random_clicked, seed@),
{
    if random_clicked {
        let mut address = "https://picsum.photos/seed/".to_owned();
        address.append(seed);
        address.append("/640");
        *url = address;
    }
    lost_focus || random_clicked
}

/// The number that decimal digits stand for.
pub open spec fn number_of(digits: Seq<char>) -> nat
    decreases digits.len(),
{
    if digits.len() == 0 {
        0
    } else {
        number_of(digits.drop_last()) * 10 + (digits.last() as nat - '0' as nat) as nat
    }
}

/// The decimal digits of a number are digits, the first of them is no zero unless
/// it is the only one, and they stand for the number.
pub proof fn law_decimal(n: nat)
    ensures
        decimal(n).len() > 0,
        forall|k: int| #![trigger decimal(n)[k]]
            0 <= k < decimal(n).len() ==> '0' <= decimal(n)[k] <= '9',
        decimal(n).len() > 1 ==> decimal(n)[0] != '0',
        number_of(decimal(n)) == n,
    decreases n,
{
    if n >= 10 {
        law_decimal(n / 10);
        assert(decimal(n).drop_last() =~= decimal(n / 10));
        if n < 100 {
            let d = n / 10;
            assert(decimal(d) == seq![(48 + d % 10) as char]);
        } else {
            lemma_more_digits(n / 10);
        }
    } else {
        assert(decimal(n).drop_last() =~= Seq::<char>::empty());
        assert(number_of(decimal(n).drop_last()) == 0);
    }
}

proof fn lemma_more_digits(n: nat)
    requires
        n >= 10,
    ensures
        decimal(n).len() > 1,
    decreases n,
{
    if n >= 100 {
        lemma_more_digits(n / 10);
    } else {
        assert(decimal(n / 10).len() == 1);
    }
}

/// Two texts are the same ignoring case exactly if they differ at most in that one
/// has a letter of ASCII in upper case where the other has it in lower case.
pub proof fn law_same_ignoring_case(a: Seq<char>, b: Seq<char>)
    ensures
        same_ignoring_case(a, b) <==> a.len() == b.len() && forall|k: int|
            #![trigger a[k]]
            0 <= k < a.len() ==> {
                ||| a[k] == b[k]
                ||| 'A' <= a[k] <= 'Z' && a[k] as u32 + 32 == b[k] as u32
                ||| 'A' <= b[k] <= 'Z' && b[k] as u32 + 32 == a[k] as u32
            },
{
    if a.len() == b.len() {
        assert forall|k: int| #![trigger a[k]] 0 <= k < a.len() implies ((ascii_lower(a[k])
            == ascii_lower(b[k])) <==> (a[k] == b[k] || 'A' <= a[k] <= 'Z' && a[k] as u32 + 32
            == b[k] as u32 || 'A' <= b[k] <= 'Z' && b[k] as u32 + 32 == a[k] as u32)) by {
            let (c, d) = (a[k], b[k]);
            assert('A' <= c <= 'Z' ==> ascii_lower(c) as u32 == c as u32 + 32);
            assert('A' <= d <= 'Z' ==> ascii_lower(d) as u32 == d as u32 + 32);
        }
        if same_ignoring_case(a, b) {
            assert forall|k: int| #![trigger a[k]] 0 <= k < a.len() implies ascii_lower(a[k])
                == ascii_lower(b[k]) by {}
        }
    }
}

/// The content type is the value of the first header that is called so, in whatever
/// case.
pub proof fn law_first_content_type(response: Response, k: int)
    requires
        0 <= k < response.headers@.len(),
        same_ignoring_case((response.headers@[k]).0@, "content-type"@),
        forall|j: int|
            0 <= j < k ==> !same_ignoring_case(
                (#[trigger] response.headers@[j]).0@,
                "content-type"@,
            ),
    ensures
        content_type_of(response) == (response.headers@[k]).1@,
{
    let headers = header_list(response.headers@);
    assert forall|j: int| 0 <= j < k implies !same_ignoring_case(
        (#[trigger] headers[j]).0,
        "content-type"@,
    ) by {
        assert(!same_ignoring_case((response.headers@[j]).0@, "content-type"@));
    }
    lemma_first_value(headers, k);
}

proof fn lemma_first_value(headers: Seq<(Seq<char>, Seq<char>)>, k: int)
    requires
        0 <= k < headers.len(),
        same_ignoring_case(headers[k].0, "content-type"@),
        forall|j: int|
            0 <= j < k ==> !same_ignoring_case((#[trigger] headers[j]).0, "content-type"@),
    ensures
        first_value(headers, |name: Seq<char>| same_ignoring_case(name, "content-type"@))
            == Some(headers[k].1),
    decreases k,
{
    if k > 0 {
        assert(!same_ignoring_case(headers[0].0, "content-type"@));
        let rest = headers.drop_first();
        assert forall|j: int| 0 <= j < k - 1 implies !same_ignoring_case(
            (#[trigger] rest[j]).0,
            "content-type"@,
        ) by {
            assert(!same_ignoring_case(headers[j + 1].0, "content-type"@));
        }
        lemma_first_value(rest, k - 1);
    }
}

/// Without a header that is called so, the content type is empty.
pub proof fn law_no_content_type(response: Response)
    requires
        forall|k: int|
            0 <= k < response.headers@.len() ==> !same_ignoring_case(
                (#[trigger] response.headers@[k]).0@,
                "content-type"@,
            ),
    ensures
        content_type_of(response) == Seq::<char>::empty(),
{
    let headers = header_list(response.headers@);
    assert forall|k: int| 0 <= k < headers.len() implies !same_ignoring_case(
        (#[trigger] headers[k]).0,
        "content-type"@,
    ) by {
        assert(!same_ignoring_case((response.headers@[k]).0@, "content-type"@));
    }
    lemma_no_value(headers);
}

proof fn lemma_no_value(headers: Seq<(Seq<char>, Seq<char>)>)
    requires
        forall|k: int|
            0 <= k < headers.len() ==> !same_ignoring_case(
                (#[trigger] headers[k]).0,
                "content-type"@,
            ),
    ensures
        first_value(headers, |name: Seq<char>| same_ignoring_case(name, "content-type"@)) is None,
    decreases headers.len(),
{
    if headers.len() > 0 {
        assert(!same_ignoring_case(headers[0].0, "content-type"@));
        let rest = headers.drop_first();
        assert forall|k: int| 0 <= k < rest.len() implies !same_ignoring_case(
            (#[trigger] rest[k]).0,
            "content-type"@,
        ) by {
            assert(!same_ignoring_case(headers[k + 1].0, "content-type"@));
        }
        lemma_no_value(rest);
    }
}

/// A text starts with another exactly if something can be appended to the other
/// that makes it the text.
pub proof fn law_starts_with(text: Seq<char>, start: Seq<char>)
    ensures
        starts_with(text, start) <==> exists|rest: Seq<char>| #[trigger] (start + rest) == text,
{
    if starts_with(text, start) {
        let rest = text.skip(start.len() as int);
        assert(start + rest =~= text);
    }
    if exists|rest: Seq<char>| #[trigger] (start + rest) == text {
        let rest = choose|rest: Seq<char>| #[trigger] (start + rest) == text;
        assert(start =~= (start + rest).subrange(0, start.len() as int));
    }
}

/// One more extension adds support for itself and for no other.
pub proof fn law_support(supported: Seq<String>, more: String, extension: Seq<char>)
    ensures
        !supports(Seq::empty(), extension),
        supports(supported.push(more), extension) <==> supports(supported, extension) || more@
            == extension,
{
    let all = supported.push(more);
    if supports(supported, extension) {
        let k = choose|k: int| 0 <= k < supported.len() && #[trigger] supported[k]@ == extension;
        assert(all[k]@ == extension);
    }
    if more@ == extension {
        assert(all[supported.len() as int]@ == extension);
    }
    if supports(all, extension) {
        let k = choose|k: int| 0 <= k < all.len() && #[trigger] all[k]@ == extension;
        if k < supported.len() {
            assert(supported[k]@ == extension);
        }
    }
}

/// The extensions by which a text is highlighted, each in whatever case.
pub proof fn law_languages(extension: Seq<char>)
    ensures
        highlightable(extension) <==> {
            ||| same_ignoring_case(extension, "c"@)
            ||| same_ignoring_case(extension, "h"@)
            ||| same_ignoring_case(extension, "hpp"@)
            ||| same_ignoring_case(extension, "cpp"@)
            ||| same_ignoring_case(extension, "c++"@)
            ||| same_ignoring_case(extension, "py"@)
            ||| same_ignoring_case(extension, "python"@)
            ||| same_ignoring_case(extension, "rs"@)
            ||| same_ignoring_case(extension, "rust"@)
            ||| same_ignoring_case(extension, "toml"@)
            ||| same_ignoring_case(extension, "md"@)
        },
{
    let all = languages();
    assert(all[0] == "c"@ && all[1] == "h"@ && all[2] == "hpp"@ && all[3] == "cpp"@ && all[4]
        == "c++"@ && all[5] == "py"@ && all[6] == "python"@ && all[7] == "rs"@ && all[8]
        == "rust"@ && all[9] == "toml"@ && all[10] == "md"@);
}

/// A resource keeps its response. It has the text of a body that is no image and is
/// text, and no other, and is highlighted by the extension of its URL, and by
/// nothing else, exactly where it has a text and the extension is supported.
pub proof fn law_resource_of_response(response: Response, supported: Seq<String>, r: Resource)
    requires
        stems_from(r, response, supported),
    ensures
        r.response == response,
        r.image <==> exists|rest: Seq<char>| #[trigger]
            ("image/"@ + rest) == content_type_of(response),
        r.text is Some <==> !r.image && valid_utf8(response.bytes@),
        r.text is Some ==> r.text->0@ == decode_utf8(response.bytes@),
        r.highlighted_as is Some <==> r.text is Some && exists|k: int|
            0 <= k < supported.len() && #[trigger] supported[k]@ == extension_of(response.url@),
        r.highlighted_as is Some ==> r.highlighted_as->0@ == extension_of(response.url@),
{
    law_starts_with(content_type_of(response), "image/"@);
}

/// The lines that show a response stand in one column: fourteen characters that
/// say what is shown, and then the URL, the number and the name of the status, or
/// the content type.
pub proof fn law_lines_of_a_response(response: Response)
    ensures
        line_of_url(response).take(14) == "url:          "@,
        line_of_url(response).skip(14) == response.url@,
        line_of_status(response).take(14) == "status:       "@,
        exists|digits: Seq<char>|
            number_of(digits) == response.status && #[trigger] (digits + " ("@
                + response.status_text@ + ")"@) == line_of_status(response).skip(14),
        line_of_content_type(response).take(14) == "content-type: "@,
        line_of_content_type(response).skip(14) == content_type_of(response),
{
    reveal_strlit("url:          ");
    reveal_strlit("status:       ");
    reveal_strlit("content-type: ");
    law_decimal(response.status as nat);
    let digits = decimal(response.status as nat);
    assert(line_of_url(response).take(14) =~= "url:          "@);
    assert(line_of_url(response).skip(14) =~= response.url@);
    assert(line_of_status(response).take(14) =~= "status:       "@);
    assert(digits + " ("@ + response.status_text@ + ")"@ =~= line_of_status(response).skip(14));
    assert(line_of_content_type(response).take(14) =~= "content-type: "@);
    assert(line_of_content_type(response).skip(14) =~= content_type_of(response));
}

/// The address changes only where a random image is asked for, and is then that of
/// the image that the seed picks, whatever it was. It is fetched exactly if the
/// address bar was left or a random image is asked for.
pub proof fn law_address_bar(
    url: Seq<char>,
    other: Seq<char>,
    lost_focus: bool,
    random_clicked: bool,
    seed: Seq<char>,
)
    ensures
        !random_clicked ==> address_after(url, random_clicked, seed) == url,
        random_clicked ==> {
            let address = address_after(url, random_clicked, seed);
            &&& address == address_after(other, random_clicked, seed)
            &&& address.len() == 31 + seed.len()
            &&& address.take(27) == "https://picsum.photos/seed/"@
            &&& address.subrange(27, 27 + seed.len() as int) == seed
            &&& address.skip(27 + seed.len() as int) == "/640"@
        },
        !fetches(lost_focus, random_clicked) <==> !lost_focus && !random_clicked,
{
    reveal_strlit("https://picsum.photos/seed/");
    reveal_strlit("/640");
    if random_clicked {
        let address = address_after(url, random_clicked, seed);
        assert(address.take(27) =~= "https://picsum.photos/seed/"@);
        assert(address.subrange(27, 27 + seed.len() as int) =~= seed);
        assert(address.skip(27 + seed.len() as int) =~= "/640"@);
    }
}

} // verus!

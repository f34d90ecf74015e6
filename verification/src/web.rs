//! URLs and percent-encoding.

use vstd::prelude::*;
use crate::decimal;
use crate::text;
use crate::text::{chars_of, find_char, string_of, strip_prefix};

verus! {

/// The parts of a URL that this library reads.
#[derive(Debug)]
pub struct UrlParts {
    pub scheme: String,
    pub host: Option<String>,
    pub port: Option<u16>,
    pub path: String,
}

/// The parts of a URL, as contracts speak of them.
pub struct UrlView {
    pub scheme: Seq<char>,
    pub host: Option<Seq<char>>,
    pub port: Option<u16>,
    pub path: Seq<char>,
}

impl View for UrlParts {
    type V = UrlView;

    open spec fn view(&self) -> UrlView {
        UrlView {
            scheme: self.scheme@,
            host: text::opt_string_view(self.host),
            port: self.port,
            path: self.path@,
        }
    }
}

/// The view of parts that may be missing.
pub open spec fn opt_parts_view(o: Option<UrlParts>) -> Option<UrlView> {
    match o {
        Some(p) => Some(p@),
        None => None,
    }
}

/// What the Basecamp API's own addresses start with.
pub const API_ROOT: &'static str = "https://3.basecampapi.com/";

/// The parts of one of the Basecamp API's own addresses.
pub open spec fn api_parts(path: Seq<char>) -> UrlView {
    UrlView {
        scheme: "https"@,
        host: Some("3.basecampapi.com"@),
        port: None,
        path,
    }
}

/// What `reqwest::Url::parse` reads from a text; `None` where it fails.
pub uninterp spec fn url_parts(text: Seq<char>) -> Option<UrlView>;

/// `reqwest::Url::parse`, and of the URL its `scheme`, `host_str`, `port` and `path`.
///
/// What it accepts is left to the `url` crate (`url_parts`). Of the Basecamp API's own addresses,
/// `https://3.basecampapi.com/` and digits, alone or followed by a slash or by `.json`, it reads
/// scheme and host as they stand, no port, and as the path all from the slash after the host.
#[verifier::external_body]
pub(crate) fn parse_url(text: &str) -> (r: Option<UrlParts>)
    ensures
        opt_parts_view(r) == url_parts(text@),
        forall|id: Seq<char>|
            #![trigger decimal::all_digits(id)]
            decimal::all_digits(id) && 0 < id.len() ==> {
                &&& text@ == API_ROOT@ + id ==> opt_parts_view(r) == Some(api_parts("/"@ + id))
                &&& text@ == API_ROOT@ + id + "/"@ ==> opt_parts_view(r) == Some(
                    api_parts("/"@ + id + "/"@),
                )
                &&& text@ == API_ROOT@ + id + ".json"@ ==> opt_parts_view(r) == Some(
                    api_parts("/"@ + id + ".json"@),
                )
            },
{
    reqwest::Url::parse(text).ok().map(
        |url| UrlParts {
            scheme: url.scheme().to_string(),
            host: url.host_str().map(|host| host.to_string()),
            port: url.port(),
            path: url.path().to_string(),
        },
    )
}

/// The text before the first slash, or all of it where there is none.
pub open spec fn before_slash(s: Seq<char>) -> Seq<char> {
    match text::find_char_from(s, '/', 0) {
        Some(i) => s.take(i),
        None => s,
    }
}

/// The first segment of a path: what stands between its first slash and the next. A path that
/// does not start with a slash has no segments.
pub open spec fn first_segment(path: Seq<char>) -> Option<Seq<char>> {
    match text::after_prefix(path, "/"@) {
        Some(rest) => Some(before_slash(rest)),
        None => None,
    }
}

/// The first segment of a path.
pub fn first_path_segment(path: &str) -> (r: Option<String>)
    ensures
        text::opt_string_view(r) == first_segment(path@),
{
    match strip_prefix(path, "/") {
        None => None,
        Some(rest) => {
            let cs = chars_of(rest.as_str());
            match find_char(&cs, '/', 0) {
                Some(i) => {
                    let segment = string_of(&cs, 0, i);
                    assert(segment@ =~= rest@.take(i as int));
                    Some(segment)
                },
                None => Some(rest),
            }
        },
    }
}

/// The characters that percent-encoding leaves alone: letters, digits and `-`, `_`, `.`, `~`.
pub open spec fn is_unreserved(b: u8) -> bool {
    ||| 48 <= b <= 57
    ||| 65 <= b <= 90
    ||| 97 <= b <= 122
    ||| b == 45
    ||| b == 46
    ||| b == 95
    ||| b == 126
}

/// The upper-case hexadecimal digit that stands for `n`, for `n` below sixteen.
pub open spec fn hex_digit(n: int) -> char {
    if n < 10 {
        decimal::digit_char(n)
    } else {
        (55 + n) as char
    }
}

/// One byte, percent-encoded.
pub open spec fn encoded_byte(b: u8) -> Seq<char> {
    if is_unreserved(b) {
        seq![b as char]
    } else {
        seq!['%', hex_digit(b as int / 16), hex_digit(b as int % 16)]
    }
}

/// Bytes, percent-encoded one by one.
pub open spec fn encoded_bytes(bytes: Seq<u8>) -> Seq<char>
    decreases bytes.len(),
{
    if bytes.len() == 0 {
        Seq::empty()
    } else {
        encoded_bytes(bytes.drop_last()) + encoded_byte(bytes.last())
    }
}

/// A text, percent-encoded over its UTF-8 bytes.
pub open spec fn url_encoded(s: Seq<char>) -> Seq<char> {
    encoded_bytes(vstd::utf8::encode_utf8(s))
}

/// `urlencoding::encode`: every UTF-8 byte but letters, digits and `-`, `_`, `.`, `~` becomes a
/// percent sign and its two upper-case hexadecimal digits.
#[verifier::external_body]
pub(crate) fn url_encode(s: &str) -> (r: String)
    ensures
        r@ == url_encoded(s@),
{
    urlencoding::encode(s).into_owned()
}

/// A percent-encoded text holds only unreserved characters and percent signs: none of the
/// characters that separate a URL's parts or a query's parameters.
pub proof fn law_encoded_text_is_inert(s: Seq<char>)
    ensures
        forall|i: int|
            0 <= i < url_encoded(s).len() ==> {
                let c = #[trigger] url_encoded(s)[i];
                c as int == 37 || (c as int <= 126 && is_unreserved(c as u8))
            },
{
    lemma_encoded_bytes_inert(vstd::utf8::encode_utf8(s));
}

proof fn lemma_encoded_bytes_inert(bytes: Seq<u8>)
    ensures
        forall|i: int|
            0 <= i < encoded_bytes(bytes).len() ==> {
                let c = #[trigger] encoded_bytes(bytes)[i];
                c as int == 37 || (c as int <= 126 && is_unreserved(c as u8))
            },
    decreases bytes.len(),
{
    if bytes.len() > 0 {
        lemma_encoded_bytes_inert(bytes.drop_last());
        let head = encoded_bytes(bytes.drop_last());
        let tail = encoded_byte(bytes.last());
        assert forall|i: int| 0 <= i < encoded_bytes(bytes).len() implies {
            let c = #[trigger] encoded_bytes(bytes)[i];
            c as int == 37 || (c as int <= 126 && is_unreserved(c as u8))
        } by {
            if i < head.len() {
                assert(encoded_bytes(bytes)[i] == head[i]);
            } else {
                assert(encoded_bytes(bytes)[i] == tail[i - head.len()]);
            }
        }
    }
}

/// The first segment of a path is all that stands between its leading slash and the next one, or
/// its end; a path without a leading slash has none.
pub proof fn law_first_segment_ends_at_the_next_slash(segment: Seq<char>, rest: Seq<char>)
    requires
        forall|i: int| 0 <= i < segment.len() ==> segment[i] != '/',
        rest.len() == 0 || rest[0] == '/',
    ensures
        first_segment("/"@ + segment + rest) == Some(segment),
        segment.len() > 0 ==> first_segment(segment) is None,
        first_segment(Seq::empty()) is None,
{
    reveal_strlit("/");
    if segment.len() > 0 && text::occurs_at(segment, "/"@, 0) {
        assert(segment.subrange(0, 1)[0] == segment[0]);
    }
    let path = "/"@ + segment + rest;
    assert(path.subrange(0, 1) =~= "/"@);
    assert(path.skip(1) =~= segment + rest);
    text::lemma_find_char_from(segment + rest, '/', 0);
    if rest.len() > 0 {
        text::lemma_find_char_is(segment + rest, '/', 0, segment.len() as int);
        assert((segment + rest).take(segment.len() as int) =~= segment);
    } else {
        assert(segment + rest =~= segment);
    }
}

} // verus!

//! XML text: escaping, and finding the value of an element in a SOAP request.
use vstd::prelude::*;

use crate::text::CharSet;
use crate::text;

verus! {

/// The text for a character in XML.
pub open spec fn xml_char(c: char) -> Seq<char> {
    if c == '&' {
        "&amp;"@
    } else if c == '"' {
        "&quot;"@
    } else if c == '\'' {
        "&apos;"@
    } else if c == '<' {
        "&lt;"@
    } else if c == '>' {
        "&gt;"@
    } else {
        seq![c]
    }
}

/// A text in XML: ampersands, quotation marks, apostrophes and angle brackets are escaped.
pub open spec fn xml_escaped(s: Seq<char>) -> Seq<char> {
    text::substituted(s, |c: char| xml_char(c))
}

/// A text in XML.
pub fn xml_text(value: &str) -> (r: String)
    ensures
        r@ == xml_escaped(value@),
{
    let v = text::chars_of(value);
    let ghost f = |c: char| xml_char(c);
    let mut r = String::new();
    let mut i: usize = 0;
    while i < v.len()
        invariant
            v@ == value@,
            f == (|c: char| xml_char(c)),
            i <= v@.len(),
            r@ == text::substituted(v@.take(i as int), f),
        decreases v@.len() - i,
    {
        let c = v[i];
        proof {
            assert(v@.take(i + 1).drop_last() =~= v@.take(i as int));
        }
        let ghost before = r@;
        if c == '&' {
            r.push_str("&amp;");
        } else if c == '"' {
            r.push_str("&quot;");
        } else if c == '\'' {
            r.push_str("&apos;");
        } else if c == '<' {
            r.push_str("&lt;");
        } else if c == '>' {
            r.push_str("&gt;");
        } else {
            r.push(c);
            proof {
                assert(before.push(c) =~= before + seq![c]);
            }
        }
        i += 1;
    }
    proof {
        assert(v@.take(i as int) =~= v@);
    }
    r
}

// ---------------------------------------------------------------------------
// Elements
// ---------------------------------------------------------------------------

/// The local part of a name: what stands behind the last colon.
pub open spec fn local_part(name: Seq<char>) -> Seq<char> {
    text::tail(name, CharSet::Only(':'))
}

/// The local name of an element, of what stands between the brackets of its start.
pub open spec fn start_name(inner: Seq<char>) -> Seq<char> {
    local_part(text::trim_end(text::first_word(inner), CharSet::Only('/')))
}

/// The local name of an element, of what stands between the brackets of its end.
pub open spec fn end_name(inner: Seq<char>) -> Seq<char> {
    local_part(text::trimmed(inner))
}

/// How a search for the end of an element ends.
pub enum EndSearch {
    /// The end stands here.
    At(int),
    /// There is no end.
    Missing,
    /// The end of some element has no closing bracket.
    Broken,
}

/// The end of the element with a name, at or after `from`.
pub open spec fn end_of(xml: Seq<char>, tag: Seq<char>, from: int) -> EndSearch
    decreases xml.len() - from,
    via end_of_decreases
{
    match text::find_from(xml, "</"@, from) {
        None => EndSearch::Missing,
        Some(start) => match text::find_from(xml, ">"@, start) {
            None => EndSearch::Broken,
            Some(close) => if end_name(xml.subrange(start + 2, close)) == tag {
                EndSearch::At(start)
            } else {
                end_of(xml, tag, close + 1)
            },
        },
    }
}

#[via_fn]
proof fn end_of_decreases(xml: Seq<char>, tag: Seq<char>, from: int) {
    if 0 <= from {
        text::lemma_find_from(xml, "</"@, from);
        match text::find_from(xml, "</"@, from) {
            Some(start) => {
                text::lemma_find_from(xml, ">"@, start);
                reveal_strlit(">");
            },
            None => {},
        }
    }
}

/// Where the contents of the first element with a name stand, searched from `from` on.
pub open spec fn element_from(xml: Seq<char>, tag: Seq<char>, from: int) -> Option<(int, int)>
    decreases xml.len() - from,
    via element_from_decreases
{
    match text::find_from(xml, "<"@, from) {
        None => None,
        Some(start) => if start + 1 < xml.len() && xml[start + 1] == '/' {
            element_from(xml, tag, start + 1)
        } else {
            match text::find_from(xml, ">"@, start) {
                None => None,
                Some(close) => if start_name(xml.subrange(start + 1, close)) == tag {
                    match end_of(xml, tag, close + 1) {
                        EndSearch::At(end) => Some((close + 1, end)),
                        EndSearch::Broken => None,
                        EndSearch::Missing => element_from(xml, tag, close + 1),
                    }
                } else {
                    element_from(xml, tag, close + 1)
                },
            }
        },
    }
}

#[via_fn]
proof fn element_from_decreases(xml: Seq<char>, tag: Seq<char>, from: int) {
    if 0 <= from {
        text::lemma_find_from(xml, "<"@, from);
        reveal_strlit("<");
        match text::find_from(xml, "<"@, from) {
            Some(start) => {
                text::lemma_find_from(xml, ">"@, start);
                reveal_strlit(">");
            },
            None => {},
        }
    }
}

/// The text in the first element with a name, without white space around it. Prefixes of names
/// count for nothing, nor does the difference of capitals and small letters.
pub open spec fn element_text(xml: Seq<char>, tag: Seq<char>) -> Option<Seq<char>> {
    match element_from(text::ascii_lower(xml), text::ascii_lower(tag), 0) {
        Some((from, to)) => Some(text::trimmed(xml.subrange(from, to))),
        None => None,
    }
}

/// The local name of an element, of what stands between the brackets of its start.
fn name_at_start(inner: &str) -> (r: String)
    ensures
        r@ == start_name(inner@),
{
    let word = text::head_of(&text::strip_start(inner, CharSet::White), CharSet::White);
    text::tail_of(&text::strip_end(&word, CharSet::Only('/')), CharSet::Only(':'))
}

/// The local name of an element, of what stands between the brackets of its end.
fn name_at_end(inner: &str) -> (r: String)
    ensures
        r@ == end_name(inner@),
{
    text::tail_of(&text::trim(inner), CharSet::Only(':'))
}

/// How a search for the end of an element ended.
enum FoundEnd {
    At(usize),
    Missing,
    Broken,
}

/// The end of the element with a name, at or after `from`.
fn find_end(lower: &Vec<char>, tag: &str, from: usize) -> (r: FoundEnd)
    requires
        from <= lower@.len(),
    ensures
        match r {
            FoundEnd::At(i) => end_of(lower@, tag@, from as int) == EndSearch::At(i as int) && from
                <= i <= lower@.len(),
            FoundEnd::Missing => end_of(lower@, tag@, from as int) == EndSearch::Missing,
            FoundEnd::Broken => end_of(lower@, tag@, from as int) == EndSearch::Broken,
        },
{
    let mark = text::chars_of("</");
    let bracket = text::chars_of(">");
    let n: usize = lower.len();
    let mut at: usize = from;
    proof {
        reveal_strlit("</");
        reveal_strlit(">");
    }
    loop
        invariant
            mark@ == "</"@,
            bracket@ == ">"@,
            "</"@.len() == 2,
            ">"@.len() == 1,
            "</"@[0] == '<',
            "</"@[1] == '/',
            ">"@[0] == '>',
            n == lower@.len(),
            from <= at <= n,
            end_of(lower@, tag@, from as int) == end_of(lower@, tag@, at as int),
        decreases lower@.len() - at,
    {
        proof {
            text::lemma_find_from(lower@, "</"@, at as int);
        }
        let start = match text::find_in(lower, &mark, at) {
            Some(i) => i,
            None => {
                return FoundEnd::Missing;
            },
        };
        proof {
            text::lemma_find_from(lower@, ">"@, start as int);
        }
        let close = match text::find_in(lower, &bracket, start) {
            Some(i) => i,
            None => {
                return FoundEnd::Broken;
            },
        };
        proof {
            assert(close >= start + 2) by {
                assert(lower@.subrange(start as int, start + 2)[0] == '<');
                assert(lower@.subrange(start as int, start + 2)[1] == '/');
                assert(lower@.subrange(close as int, close + 1)[0] == '>');
            }
        }
        let name = name_at_end(&text::substring(lower, start + 2, close));
        if text::same(&name, tag) {
            return FoundEnd::At(start);
        }
        at = close + 1;
    }
}

/// The text in the first element with a name, without white space around it.
pub fn soap_tag(xml: &str, tag: &str) -> (r: Option<String>)
    ensures
        text::text_in(r) == element_text(xml@, tag@),
{
    let chars = text::chars_of(xml);
    let lower = text::chars_of(&text::to_ascii_lower(xml));
    let tag_lower = text::to_ascii_lower(tag);
    let open = text::chars_of("<");
    let bracket = text::chars_of(">");
    let n: usize = lower.len();
    let mut at: usize = 0;
    proof {
        reveal_strlit("<");
        reveal_strlit(">");
    }
    loop
        invariant
            chars@ == xml@,
            lower@ == text::ascii_lower(xml@),
            tag_lower@ == text::ascii_lower(tag@),
            open@ == "<"@,
            bracket@ == ">"@,
            "<"@.len() == 1,
            ">"@.len() == 1,
            "<"@[0] == '<',
            ">"@[0] == '>',
            n == lower@.len(),
            n == chars@.len(),
            at <= n,
            element_from(lower@, tag_lower@, 0) == element_from(lower@, tag_lower@, at as int),
        decreases n - at,
    {
        proof {
            text::lemma_find_from(lower@, "<"@, at as int);
        }
        let start = match text::find_in(&lower, &open, at) {
            Some(i) => i,
            None => {
                return None;
            },
        };
        if start + 1 < n && lower[start + 1] == '/' {
            at = start + 1;
        } else {
            proof {
                text::lemma_find_from(lower@, ">"@, start as int);
            }
            let close = match text::find_in(&lower, &bracket, start) {
                Some(i) => i,
                None => {
                    return None;
                },
            };
            proof {
                assert(close >= start + 1) by {
                    assert(lower@.subrange(start as int, start + 1)[0] == '<');
                    assert(lower@.subrange(close as int, close + 1)[0] == '>');
                }
            }
            let name = name_at_start(&text::substring(&lower, start + 1, close));
            if text::same(&name, &tag_lower) {
                match find_end(&lower, &tag_lower, close + 1) {
                    FoundEnd::At(end) => {
                        return Some(text::trim(&text::substring(&chars, close + 1, end)));
                    },
                    FoundEnd::Broken => {
                        return None;
                    },
                    FoundEnd::Missing => {},
                }
            }
            at = close + 1;
        }
    }
}

// ---------------------------------------------------------------------------
// SOAP
// ---------------------------------------------------------------------------

/// The answer to an action of a service.
pub open spec fn envelope(service: Seq<char>, action: Seq<char>, inner: Seq<char>) -> Seq<char> {
    "<?xml version=\"1.0\" encoding=\"UTF-8\"?><s:Envelope xmlns:s=\"http://schemas.xmlsoap.org/soap/envelope/\" s:encodingStyle=\"http://schemas.xmlsoap.org/soap/encoding/\"><s:Body><u:"@
        + action + " xmlns:u=\"urn:schemas-upnp-org:service:"@ + service + ":1\">"@ + inner
        + "</u:"@ + action + "></s:Body></s:Envelope>"@
}

/// The answer to an action of a service.
pub fn soap_response(service: &str, action: &str, inner_xml: &str) -> (r: String)
    ensures
        r@ == envelope(service@, action@, inner_xml@),
{
    let mut r =
        "<?xml version=\"1.0\" encoding=\"UTF-8\"?><s:Envelope xmlns:s=\"http://schemas.xmlsoap.org/soap/envelope/\" s:encodingStyle=\"http://schemas.xmlsoap.org/soap/encoding/\"><s:Body><u:".to_string();
    r.push_str(action);
    r.push_str(" xmlns:u=\"urn:schemas-upnp-org:service:");
    r.push_str(service);
    r.push_str(":1\">");
    r.push_str(inner_xml);
    r.push_str("</u:");
    r.push_str(action);
    r.push_str("></s:Body></s:Envelope>");
    r
}

// ---------------------------------------------------------------------------
// Laws
// ---------------------------------------------------------------------------

/// Whether a character would be read as markup.
pub open spec fn markup(c: char) -> bool {
    c == '<' || c == '>' || c == '"' || c == '\''
}

/// An escaped text holds no markup, so it can stand in an element and in an attribute.
pub proof fn law_escaped_has_no_markup(s: Seq<char>)
    ensures
        forall|i: int| 0 <= i < xml_escaped(s).len() ==> !markup(#[trigger] xml_escaped(s)[i]),
    decreases s.len(),
{
    if s.len() > 0 {
        law_escaped_has_no_markup(s.drop_last());
        let front = xml_escaped(s.drop_last());
        let last = xml_char(s.last());
        reveal_strlit("&amp;");
        reveal_strlit("&quot;");
        reveal_strlit("&apos;");
        reveal_strlit("&lt;");
        reveal_strlit("&gt;");
        assert(xml_escaped(s) == front + last);
        assert forall|i: int| 0 <= i < xml_escaped(s).len() implies !markup(
            #[trigger] xml_escaped(s)[i],
        ) by {
            if i < front.len() {
                assert(xml_escaped(s)[i] == front[i]);
            } else {
                assert(xml_escaped(s)[i] == last[i - front.len()]);
            }
        }
    }
}

/// The first place of a text whose first character does not stand before it.
proof fn lemma_find_is(s: Seq<char>, pat: Seq<char>, from: int, at: int)
    requires
        0 <= from <= at,
        pat.len() > 0,
        text::occurs_at(s, pat, at),
        forall|j: int| from <= j < at ==> #[trigger] s[j] != pat[0],
    ensures
        text::find_from(s, pat, from) == Some(at),
    decreases at - from,
{
    if from < at {
        if text::occurs_at(s, pat, from) {
            assert(s.subrange(from, from + pat.len())[0] == pat[0]);
            assert(s[from] != pat[0]);
        }
        lemma_find_is(s, pat, from + 1, at);
    }
}

/// A name without white space, slashes and colons is its own local part.
proof fn lemma_plain_name(t: Seq<char>)
    requires
        t.len() > 0,
        forall|i: int| 0 <= i < t.len() ==> text::ascii_alphanumeric(#[trigger] t[i]),
    ensures
        start_name(t) == t,
        end_name(t) == t,
{
    assert(text::trim_start(t, CharSet::White) == t) by {
        assert(text::ascii_alphanumeric(t[0]));
    }
    assert forall|j: int| 0 <= j < t.len() implies !CharSet::White.has(#[trigger] t[j]) by {
        assert(text::ascii_alphanumeric(t[j]));
    }
    text::lemma_until_is(t, CharSet::White, t.len() as int);
    assert(t.take(t.len() as int) =~= t);
    assert(text::ascii_alphanumeric(t[t.len() - 1]));
    assert(text::trim_end(t, CharSet::Only('/')) == t);
    assert(text::trim_end(t, CharSet::White) == t);
    lemma_tail_whole(t);
}

proof fn lemma_tail_whole(t: Seq<char>)
    requires
        forall|i: int| 0 <= i < t.len() ==> text::ascii_alphanumeric(#[trigger] t[i]),
    ensures
        local_part(t) == t,
    decreases t.len(),
{
    if t.len() > 0 {
        assert(text::ascii_alphanumeric(t[t.len() - 1]));
        assert forall|i: int| 0 <= i < t.drop_last().len() implies text::ascii_alphanumeric(
            #[trigger] t.drop_last()[i],
        ) by {
            assert(text::ascii_alphanumeric(t[i]));
        }
        lemma_tail_whole(t.drop_last());
        assert(t.drop_last().push(t.last()) =~= t);
    } else {
        assert(local_part(t) =~= t);
    }
}

/// The value of an element is found whatever stands before and after the element, as long as
/// no other element starts before it or in it.
pub proof fn law_element_is_found(
    before: Seq<char>,
    tag: Seq<char>,
    value: Seq<char>,
    after: Seq<char>,
)
    requires
        tag.len() > 0,
        forall|i: int| 0 <= i < tag.len() ==> text::ascii_alphanumeric(#[trigger] tag[i]),
        !before.contains('<'),
        !value.contains('<'),
    ensures
        element_text(
            before + "<"@ + tag + ">"@ + value + "</"@ + tag + ">"@ + after,
            tag,
        ) == Some(text::trimmed(value)),
{
    reveal_strlit("<");
    reveal_strlit(">");
    reveal_strlit("</");
    let xml = before + "<"@ + tag + ">"@ + value + "</"@ + tag + ">"@ + after;
    let low = text::ascii_lower(xml);
    let t = text::ascii_lower(tag);
    let a = before.len() as int;
    let n = tag.len() as int;
    let close = a + 1 + n;
    let end = close + 1 + value.len();
    assert forall|i: int| 0 <= i < t.len() implies text::ascii_alphanumeric(#[trigger] t[i]) by {
        assert(text::ascii_alphanumeric(tag[i]));
    }
    lemma_plain_name(t);
    // The start of the element.
    assert forall|j: int| 0 <= j < a implies #[trigger] low[j] != "<"@[0] by {
        assert(xml[j] == before[j]);
    }
    assert(low.subrange(a, a + 1) =~= "<"@);
    lemma_find_is(low, "<"@, 0, a);
    assert forall|j: int| a + 1 <= j < close implies #[trigger] low[j] == t[j - a - 1] by {
        assert(xml[j] == tag[j - a - 1]);
    }
    assert(text::ascii_alphanumeric(t[0]));
    assert(low[a + 1] != '/');
    assert forall|j: int| a <= j < close implies #[trigger] low[j] != ">"@[0] by {
        if j > a {
            assert(text::ascii_alphanumeric(t[j - a - 1]));
        }
    }
    assert(low.subrange(close, close + 1) =~= ">"@);
    lemma_find_is(low, ">"@, a, close);
    assert(low.subrange(a + 1, close) =~= t);
    // Its end.
    assert forall|j: int| close + 1 <= j < end implies #[trigger] low[j] != "</"@[0] by {
        assert(xml[j] == value[j - close - 1]);
    }
    assert(low.subrange(end, end + 2) =~= "</"@);
    lemma_find_is(low, "</"@, close + 1, end);
    assert forall|j: int| end + 2 <= j < end + 2 + n implies #[trigger] low[j] == t[j - end
        - 2] by {
        assert(xml[j] == tag[j - end - 2]);
    }
    assert forall|j: int| end <= j < end + 2 + n implies #[trigger] low[j] != ">"@[0] by {
        if j >= end + 2 {
            assert(text::ascii_alphanumeric(t[j - end - 2]));
        } else {
            assert(low.subrange(end, end + 2)[j - end] == "</"@[j - end]);
        }
    }
    assert(low.subrange(end + 2 + n, end + 2 + n + 1) =~= ">"@);
    lemma_find_is(low, ">"@, end, end + 2 + n);
    assert(low.subrange(end + 2, end + 2 + n) =~= t);
    assert(xml.subrange(close + 1, end) =~= value);
}

/// Each of the five characters of markup has an escape of its own, any other character stays, and
/// what is around it does not matter.
pub proof fn law_escapes(a: Seq<char>, c: char, b: Seq<char>)
    ensures
        xml_escaped(Seq::empty()).len() == 0,
        xml_escaped(a + b) == xml_escaped(a) + xml_escaped(b),
        xml_escaped(seq!['&']) == "&amp;"@,
        xml_escaped(seq!['"']) == "&quot;"@,
        xml_escaped(seq!['\'']) == "&apos;"@,
        xml_escaped(seq!['<']) == "&lt;"@,
        xml_escaped(seq!['>']) == "&gt;"@,
        !markup(c) && c != '&' ==> xml_escaped(seq![c]) == seq![c],
{
    let f = |x: char| xml_char(x);
    text::lemma_substituted_concat(a, b, f);
    lemma_escaped_alone('&');
    lemma_escaped_alone('"');
    lemma_escaped_alone('\'');
    lemma_escaped_alone('<');
    lemma_escaped_alone('>');
    lemma_escaped_alone(c);
}

proof fn lemma_escaped_alone(c: char)
    ensures
        xml_escaped(seq![c]) == xml_char(c),
{
    let one = seq![c];
    assert(one.drop_last() =~= Seq::<char>::empty());
    assert(text::substituted(one.drop_last(), |x: char| xml_char(x)).len() == 0);
    assert(xml_escaped(one) =~= xml_char(c));
}

/// The answer to an action names the action and the service, and holds what is answered.
pub proof fn law_answer_names_action(service: Seq<char>, action: Seq<char>, inner: Seq<char>)
    ensures
        text::has_part(
            envelope(service, action, inner),
            "<u:"@ + action + " xmlns:u=\"urn:schemas-upnp-org:service:"@ + service + ":1\">"@
                + inner + "</u:"@ + action + ">"@,
        ),
{
    reveal_strlit(
        "<?xml version=\"1.0\" encoding=\"UTF-8\"?><s:Envelope xmlns:s=\"http://schemas.xmlsoap.org/soap/envelope/\" s:encodingStyle=\"http://schemas.xmlsoap.org/soap/encoding/\"><s:Body><u:",
    );
    reveal_strlit("<u:");
    reveal_strlit("></s:Body></s:Envelope>");
    reveal_strlit(">");
    let start = "<?xml version=\"1.0\" encoding=\"UTF-8\"?><s:Envelope xmlns:s=\"http://schemas.xmlsoap.org/soap/envelope/\" s:encodingStyle=\"http://schemas.xmlsoap.org/soap/encoding/\"><s:Body><u:"@;
    let middle = action + " xmlns:u=\"urn:schemas-upnp-org:service:"@ + service + ":1\">"@ + inner
        + "</u:"@ + action;
    let s = envelope(service, action, inner);
    let part = "<u:"@ + action + " xmlns:u=\"urn:schemas-upnp-org:service:"@ + service + ":1\">"@
        + inner + "</u:"@ + action + ">"@;
    let n = start.len() - 3;
    assert(start.skip(n) =~= "<u:"@);
    assert("></s:Body></s:Envelope>"@.take(1) =~= ">"@);
    assert(s =~= start + middle + "></s:Body></s:Envelope>"@);
    assert(part =~= "<u:"@ + middle + ">"@);
    assert(start =~= start.take(n) + "<u:"@);
    assert("></s:Body></s:Envelope>"@ =~= ">"@ + "></s:Body></s:Envelope>"@.skip(1));
    assert(s =~= start.take(n) + part + "></s:Body></s:Envelope>"@.skip(1));
    assert(part.subrange(0, part.len() as int) =~= part);
    assert(text::occurs_at(part, part, 0));
    text::lemma_part_within(start.take(n), part, "></s:Body></s:Envelope>"@.skip(1), part);
}

} // verus!

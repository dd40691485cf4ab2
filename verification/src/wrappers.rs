//! Calls into std and outside crates that Verus cannot see into, each with
//! the contract it is trusted to meet. Everything else in the crate is
//! verified against these contracts.
use vstd::prelude::*;

use crate::mutation::encoding::hex_lower;

verus! {

// ── serde_json string quoting ────────────────────────────────────────────────

/// How serde_json writes one character inside a JSON string literal:
/// `"` and `\` are backslash-escaped, the control characters `\b \t \n \f \r`
/// use their short escapes, other characters below U+0020 become `\u00XX`
/// with lower-case hex, and everything else is written as is.
pub open spec fn json_escape_char(c: char) -> Seq<char> {
    if c == '"' {
        seq!['\\', '"']
    } else if c == '\\' {
        seq!['\\', '\\']
    } else if c == '\u{8}' {
        seq!['\\', 'b']
    } else if c == '\t' {
        seq!['\\', 't']
    } else if c == '\n' {
        seq!['\\', 'n']
    } else if c == '\u{c}' {
        seq!['\\', 'f']
    } else if c == '\r' {
        seq!['\\', 'r']
    } else if (c as u32) < 0x20 {
        seq!['\\', 'u', '0', '0', hex_lower(((c as u32) / 16) as u8), hex_lower(((c as u32) % 16) as u8)]
    } else {
        seq![c]
    }
}

/// `s` as a JSON string literal, quotes included.
pub open spec fn json_string(s: Seq<char>) -> Seq<char> {
    seq!['"'] + s.flat_map(|c: char| json_escape_char(c)) + seq!['"']
}

/// `serde_json::to_string` of a string slice. serde_json's string
/// formatter (`format_escaped_str` with its `ESCAPE` table) writes the
/// escapes that `json_escape_char` lists; serialising a `str` into memory
/// cannot fail.
#[verifier::external_body]
pub fn json_quote(s: &str) -> (r: String)
    ensures
        r@ == json_string(s@),
{
    serde_json::to_string(s).unwrap_or_else(|_| "\"\"".to_owned())
}

/// What reading `text` as JSON (`serde_json::from_str::<Value>`) and
/// writing it back pretty-printed (`serde_json::to_string_pretty`, two-space
/// indent) gives: the pretty text, or the parse error's message. It is a
/// function of the text alone.
pub uninterp spec fn pretty_json_of(text: Seq<char>) -> Result<Seq<char>, Seq<char>>;

/// `serde_json::from_str::<serde_json::Value>` followed by
/// `serde_json::to_string_pretty`; the error is the parse error's
/// `Display` text (writing a `Value` into memory does not fail).
#[verifier::external_body]
pub fn json_pretty(text: &str) -> (r: Result<String, String>)
    ensures
        match r {
            Ok(p) => pretty_json_of(text@) == Ok::<Seq<char>, Seq<char>>(p@),
            Err(m) => pretty_json_of(text@) == Err::<Seq<char>, Seq<char>>(m@),
        },
{
    match serde_json::from_str::<serde_json::Value>(text) {
        Ok(v) => serde_json::to_string_pretty(&v).map_err(|e| e.to_string()),
        Err(e) => Err(e.to_string()),
    }
}

/// The message of the error `serde_json::from_str::<Value>` reports for
/// `text`, or `None` when the text is JSON. A function of the text alone.
pub uninterp spec fn json_syntax_error(text: Seq<char>) -> Option<Seq<char>>;

/// Whether `text` reads as JSON (`serde_json::from_str::<Value>`), and the
/// error's `Display` text when it does not.
#[verifier::external_body]
pub fn json_check(text: &str) -> (r: Option<String>)
    ensures
        match r {
            Some(m) => json_syntax_error(text@) == Some(m@),
            None => json_syntax_error(text@) is None,
        },
{
    serde_json::from_str::<serde_json::Value>(text).err().map(|e| e.to_string())
}

// ── Unicode lower-casing ────────────────────────────────────────────────────

/// What `str::to_lowercase` returns for a string: each character mapped by
/// the Unicode `Lowercase` mapping, with the context-dependent final-sigma
/// rule. Characters may expand into several, so the result can be longer.
pub uninterp spec fn unicode_lowercase(s: Seq<char>) -> Seq<char>;

/// std `str::to_lowercase`; its result depends on the characters of `s`
/// alone, and on ASCII text it is the ASCII lower-casing (the Unicode
/// mapping of an ASCII letter is its ASCII counterpart).
#[verifier::external_body]
pub fn to_lowercase(s: &str) -> (r: String)
    ensures
        r@ == unicode_lowercase(s@),
        crate::text::all_ascii(s@) ==> r@ == s@.map_values(|c: char| crate::text::ascii_lower(c)),
{
    s.to_lowercase()
}

/// What `str::to_uppercase` returns for a string: each character mapped by
/// the Unicode `Uppercase` mapping; characters may expand into several.
pub uninterp spec fn unicode_uppercase(s: Seq<char>) -> Seq<char>;

/// std `str::to_uppercase`; its result depends on the characters of `s`
/// alone, and on ASCII text it is the ASCII upper-casing.
#[verifier::external_body]
pub fn to_uppercase(s: &str) -> (r: String)
    ensures
        r@ == unicode_uppercase(s@),
        crate::text::all_ascii(s@) ==> r@ == s@.map_values(|c: char| crate::text::ascii_upper(c)),
{
    s.to_uppercase()
}

// ── UTF-8 decoding ───────────────────────────────────────────────────────────

/// What `String::from_utf8_lossy` makes of a byte string: the text, each
/// ill-formed sequence replaced by U+FFFD.
pub uninterp spec fn lossy_utf8(bytes: Seq<u8>) -> Seq<char>;

/// std `String::from_utf8_lossy(..).into_owned()`. Its result depends on
/// the bytes alone, and, as std documents, valid UTF-8 comes back as the
/// text it encodes.
#[verifier::external_body]
pub fn utf8_lossy(bytes: &[u8]) -> (r: String)
    ensures
        r@ == lossy_utf8(bytes@),
        vstd::utf8::valid_utf8(bytes@) ==> r@ == vstd::utf8::decode_utf8(bytes@),
{
    String::from_utf8_lossy(bytes).into_owned()
}

// ── regex ────────────────────────────────────────────────────────────────────

/// What `regex` makes of `pattern` on `text`: the error message when the
/// pattern does not compile; else, for the leftmost-first match, each
/// capture group's text (`None` for a group that did not take part), or
/// `None` when nothing matches.
pub uninterp spec fn regex_captures_of(pattern: Seq<char>, text: Seq<char>) -> Result<Option<Seq<Option<Seq<char>>>>, Seq<char>>;

pub open spec fn groups_view(v: Seq<Option<String>>) -> Seq<Option<Seq<char>>> {
    v.map_values(|g: Option<String>| match g {
        Some(s) => Some(s@),
        None => None,
    })
}

/// `regex::Regex::new(pattern)` then `captures(text)`, each group taken as
/// an owned string. As the crate documents, a match always has group 0,
/// the whole match.
#[verifier::external_body]
pub fn regex_captures(pattern: &str, text: &str) -> (r: Result<Option<Vec<Option<String>>>, String>)
    ensures
        match r {
            Ok(Some(groups)) => regex_captures_of(pattern@, text@) == Ok::<Option<Seq<Option<Seq<char>>>>, Seq<char>>(Some(groups_view(groups@)))
                && groups@.len() >= 1 && groups@[0] is Some,
            Ok(None) => regex_captures_of(pattern@, text@) == Ok::<Option<Seq<Option<Seq<char>>>>, Seq<char>>(None),
            Err(e) => regex_captures_of(pattern@, text@) == Err::<Option<Seq<Option<Seq<char>>>>, Seq<char>>(e@),
        },
{
    match regex::Regex::new(pattern) {
        Ok(re) => Ok(re.captures(text).map(|c| c.iter().map(|m| m.map(|m| m.as_str().to_owned())).collect())),
        Err(e) => Err(e.to_string()),
    }
}

// ── JSONPath ─────────────────────────────────────────────────────────────────

/// What a JSONPath query makes of a body: the first node the path selects
/// (a string as its text, any other value as compact JSON), `None` when it
/// selects nothing; or the failure, `(false, message)` when the body is not
/// JSON and `(true, message)` when the path does not parse.
pub uninterp spec fn jsonpath_first_of(body: Seq<u8>, path: Seq<char>) -> Result<Option<Seq<char>>, (bool, Seq<char>)>;

/// `serde_json::from_slice`, `serde_json_path::JsonPath::parse` and
/// `query(..).first()`, the node taken as its string or as
/// `serde_json::Value::to_string`.
#[verifier::external_body]
pub fn jsonpath_first(body: &[u8], path: &str) -> (r: Result<Option<String>, (bool, String)>)
    ensures
        match r {
            Ok(Some(s)) => jsonpath_first_of(body@, path@) == Ok::<Option<Seq<char>>, (bool, Seq<char>)>(Some(s@)),
            Ok(None) => jsonpath_first_of(body@, path@) == Ok::<Option<Seq<char>>, (bool, Seq<char>)>(None),
            Err((k, m)) => jsonpath_first_of(body@, path@) == Err::<Option<Seq<char>>, (bool, Seq<char>)>((k, m@)),
        },
{
    let json: serde_json::Value = match serde_json::from_slice(body) {
        Ok(v) => v,
        Err(e) => return Err((false, e.to_string())),
    };
    let jp = match serde_json_path::JsonPath::parse(path) {
        Ok(p) => p,
        Err(e) => return Err((true, e.to_string())),
    };
    Ok(jp.query(&json).first().map(|v| match v {
        serde_json::Value::String(s) => s.clone(),
        other => other.to_string(),
    }))
}

// ── Clock ────────────────────────────────────────────────────────────────────

/// Seconds since the Unix epoch by the system clock (0 if the clock reads
/// before the epoch). Nothing is promised of the value: it is the time.
#[verifier::external_body]
pub fn unix_time_secs() -> (r: u64) {
    match std::time::SystemTime::now().duration_since(std::time::UNIX_EPOCH) {
        Ok(d) => d.as_secs(),
        Err(_) => 0,
    }
}

// ── SHA-256 ──────────────────────────────────────────────────────────────────

/// The SHA-256 digest of a byte string (FIPS 180-4).
pub uninterp spec fn sha256(data: Seq<u8>) -> Seq<u8>;

/// `sha2::Sha256::digest`: the 32-byte SHA-256 digest of `data`. Feeding
/// the hasher several pieces with `update` digests their concatenation, so
/// one call on the joined bytes gives the same digest.
#[verifier::external_body]
pub fn sha256_digest(data: &[u8]) -> (r: Vec<u8>)
    ensures
        r@ == sha256(data@),
        r@.len() == 32,
{
    <sha2::Sha256 as sha2::Digest>::digest(data).to_vec()
}

// ── minijinja ────────────────────────────────────────────────────────────────

/// What minijinja renders for `template` in a context holding `prompt` as a
/// string and each of `objects` as an object of string fields (a later
/// object of the same name replaces an earlier one), with auto-escaping
/// off and trailing newlines kept: the output, or the error's message.
pub uninterp spec fn jinja_render(
    template: Seq<char>,
    prompt: Seq<char>,
    objects: Seq<(Seq<char>, Seq<(Seq<char>, Seq<char>)>)>,
) -> Result<Seq<char>, Seq<char>>;

pub open spec fn has_no_open_brace(s: Seq<char>) -> bool {
    forall|i: int| 0 <= i < s.len() ==> s[i] != '{'
}

/// `minijinja::Environment::render_str` on a fresh environment with
/// auto-escaping off and `keep_trailing_newline` on. The result is named by
/// `jinja_render`. Two facts of minijinja's documented syntax are stated:
/// text without a `{` holds no tag and is emitted as is; and
/// `{{ prompt }}` between two such texts emits the prompt string unescaped
/// (when no object is also named `prompt`).
#[verifier::external_body]
pub fn render_template(template: &str, prompt: &str, objects: &Vec<(String, Vec<(String, String)>)>) -> (r: Result<String, String>)
    ensures
        match r {
            Ok(s) => jinja_render(template@, prompt@, crate::template::groups_view(objects@)) == Ok::<Seq<char>, Seq<char>>(s@),
            Err(e) => jinja_render(template@, prompt@, crate::template::groups_view(objects@)) == Err::<Seq<char>, Seq<char>>(e@),
        },
        has_no_open_brace(template@) ==> (r is Ok && r->Ok_0@ == template@),
        forall|a: Seq<char>, b: Seq<char>|
            #![trigger has_no_open_brace(a), has_no_open_brace(b)]
            has_no_open_brace(a) && has_no_open_brace(b) && template@ == a + "{{ prompt }}"@ + b
                && (forall|k: int| 0 <= k < objects@.len() ==> objects@[k].0@ != "prompt"@)
                ==> (r is Ok && r->Ok_0@ == a + prompt@ + b),
{
    let mut ctx = serde_json::Map::new();
    ctx.insert("prompt".to_owned(), serde_json::Value::String(prompt.to_owned()));
    for (name, fields) in objects {
        let obj = fields.iter().map(|(k, v)| (k.clone(), serde_json::Value::String(v.clone())));
        ctx.insert(name.clone(), serde_json::Value::Object(obj.collect()));
    }
    let mut jinja = minijinja::Environment::new();
    jinja.set_auto_escape_callback(|_| minijinja::AutoEscape::None);
    jinja.set_keep_trailing_newline(true);
    jinja.render_str(template, serde_json::Value::Object(ctx)).map_err(|e| e.to_string())
}

// ── Debug formatting ─────────────────────────────────────────────────────────

/// `format!("{:?}", s)` of a string slice: the string in double quotes,
/// each character written as `char::escape_debug` writes it.
pub uninterp spec fn debug_str(s: Seq<char>) -> Seq<char>;

/// std's `Debug` for `str`; its output depends on the characters alone.
#[verifier::external_body]
pub fn debug_quote(s: &str) -> (r: String)
    ensures
        r@ == debug_str(s@),
{
    format!("{s:?}")
}

// ── The HTML report ──────────────────────────────────────────────────────────

/// What minijinja renders for the template text `template`, registered as
/// `report.html`, over the data given as JSON text `json`: the page, or the
/// error's message (of the JSON parse or of the template engine). It is a
/// function of the two texts alone.
pub uninterp spec fn html_report_of(template: Seq<char>, json: Seq<char>) -> Result<Seq<char>, Seq<char>>;

/// Reads `json` (`serde_json::from_str::<Value>`) and renders `template`
/// over it with minijinja, registered as `report.html`, which minijinja's
/// default callback auto-escapes as HTML. The error is the failing step's
/// `Display` text.
#[verifier::external_body]
pub fn render_report_template(template: &str, json: &str) -> (r: Result<String, String>)
    ensures
        match r {
            Ok(h) => html_report_of(template@, json@) == Ok::<Seq<char>, Seq<char>>(h@),
            Err(e) => html_report_of(template@, json@) == Err::<Seq<char>, Seq<char>>(e@),
        },
{
    let ctx: serde_json::Value = serde_json::from_str(json).map_err(|e| e.to_string())?;
    let mut env = minijinja::Environment::new();
    env.add_template("report.html", template).map_err(|e| e.to_string())?;
    let page = env.get_template("report.html").map_err(|e| e.to_string())?;
    page.render(ctx).map_err(|e| e.to_string())
}

} // verus!

//! An executable's version information (company, product, description,
//! version). The Windows version API reads the resource; this module decides
//! which language/code page to query, builds the query paths, decodes the
//! UTF-16 values and assembles the result.

use vstd::prelude::*;
use crate::text::{code_points, decode_utf16_lossy, hex4, push_hex4, utf16_scalars};

verus! {

/// Language used when the resource has no translation table: US English.
pub const DEFAULT_LANG: u16 = 0x0409;
/// Code page used when the resource has no translation table: Unicode.
pub const DEFAULT_CODEPAGE: u16 = 0x04b0;

/// CompanyName / ProductName / FileDescription / FileVersion.
pub struct VersionInfo {
    pub company: String,
    pub product: String,
    pub description: String,
    pub version: String,
}

pub struct VersionView {
    pub company: Seq<char>,
    pub product: Seq<char>,
    pub description: Seq<char>,
    pub version: Seq<char>,
}

impl View for VersionInfo {
    type V = VersionView;

    open spec fn view(&self) -> VersionView {
        VersionView {
            company: self.company@,
            product: self.product@,
            description: self.description@,
            version: self.version@,
        }
    }
}

pub open spec fn no_version_info() -> VersionView {
    VersionView {
        company: Seq::empty(),
        product: Seq::empty(),
        description: Seq::empty(),
        version: Seq::empty(),
    }
}

impl VersionInfo {
    /// All four fields empty.
    pub fn empty() -> (r: VersionInfo)
        ensures
            r@ == no_version_info(),
    {
        VersionInfo {
            company: String::new(),
            product: String::new(),
            description: String::new(),
            version: String::new(),
        }
    }
}

// ---------------------------------------------------------------------------
// Querying
// ---------------------------------------------------------------------------

/// The translation table answer is used only when the query succeeded and
/// returned a non-null value of at least one (language, code page) pair.
pub fn translation_usable(found: bool, len: u32, non_null: bool) -> (b: bool)
    ensures
        b == (found && len >= 4 && non_null),
{
    found && len >= 4 && non_null
}

/// The language and code page to query: the resource's first translation,
/// or US English / Unicode.
pub fn lang_codepage(translation: Option<(u16, u16)>) -> (r: (u16, u16))
    ensures
        r == match translation {
            Some(pair) => pair,
            None => (DEFAULT_LANG, DEFAULT_CODEPAGE),
        },
{
    match translation {
        Some(pair) => pair,
        None => (DEFAULT_LANG, DEFAULT_CODEPAGE),
    }
}

/// `format!("\\StringFileInfo\\{:04x}{:04x}\\{}", lang, cp, field)`.
pub open spec fn spec_string_query_path(lang: u16, cp: u16, field: Seq<char>) -> Seq<char> {
    "\\StringFileInfo\\"@ + hex4(lang) + hex4(cp) + "\\"@ + field
}

pub fn string_query_path(lang: u16, cp: u16, field: &str) -> (r: String)
    ensures
        r@ == spec_string_query_path(lang, cp, field@),
{
    let mut s = "\\StringFileInfo\\".to_owned();
    push_hex4(&mut s, lang);
    push_hex4(&mut s, cp);
    s.append("\\");
    s.append(field);
    s
}

/// The four string fields, in the order company, product, description,
/// version.
pub open spec fn field_names() -> Seq<Seq<char>> {
    seq!["CompanyName"@, "ProductName"@, "FileDescription"@, "FileVersion"@]
}

/// The query paths of the four fields for a language and code page.
pub fn version_query_paths(lang: u16, cp: u16) -> (r: Vec<String>)
    ensures
        r@.len() == 4,
        forall|i: int|
            0 <= i < 4 ==> (#[trigger] r@[i])@ == spec_string_query_path(
                lang,
                cp,
                field_names()[i],
            ),
{
    let mut r: Vec<String> = Vec::new();
    r.push(string_query_path(lang, cp, "CompanyName"));
    r.push(string_query_path(lang, cp, "ProductName"));
    r.push(string_query_path(lang, cp, "FileDescription"));
    r.push(string_query_path(lang, cp, "FileVersion"));
    r
}

/// A string value is used only when the query succeeded with a non-null,
/// non-empty value.
pub fn value_usable(found: bool, len: u32, non_null: bool) -> (b: bool)
    ensures
        b == (found && len > 0 && non_null),
{
    found && len > 0 && non_null
}

// ---------------------------------------------------------------------------
// Decoding
// ---------------------------------------------------------------------------

/// The UTF-16 units before the first NUL (all of them when there is none).
pub open spec fn until_nul(s: Seq<u16>) -> Seq<u16>
    decreases s.len(),
{
    if s.len() == 0 {
        s
    } else if s[0] == 0 {
        Seq::empty()
    } else {
        seq![s[0]] + until_nul(s.drop_first())
    }
}

proof fn lemma_until_nul_at(s: Seq<u16>, k: int)
    requires
        0 <= k <= s.len(),
        k == s.len() || s[k] == 0,
        forall|t: int| 0 <= t < k ==> #[trigger] s[t] != 0,
    ensures
        until_nul(s) == s.subrange(0, k),
    decreases s.len(),
{
    if s.len() == 0 {
        assert(s.subrange(0, 0) =~= s);
    } else if k == 0 {
        assert(s.subrange(0, 0) =~= Seq::<u16>::empty());
    } else {
        assert forall|t: int| 0 <= t < k - 1 implies #[trigger] s.drop_first()[t] != 0 by {
            assert(s.drop_first()[t] == s[t + 1]);
        }
        lemma_until_nul_at(s.drop_first(), k - 1);
        assert(s.subrange(0, k) =~= seq![s[0]] + s.drop_first().subrange(0, k - 1));
    }
}

/// A version string value: the UTF-16 text up to its NUL, decoded as
/// `String::from_utf16_lossy` does.
pub fn decode_version_string(raw: &[u16]) -> (r: String)
    ensures
        code_points(r@) == utf16_scalars(until_nul(raw@)),
{
    let mut k: usize = 0;
    while k < raw.len() && raw[k] != 0
        invariant
            k <= raw@.len(),
            forall|t: int| 0 <= t < k ==> #[trigger] raw@[t] != 0,
        decreases raw@.len() - k,
    {
        k = k + 1;
    }
    proof {
        lemma_until_nul_at(raw@, k as int);
    }
    decode_utf16_lossy(vstd::slice::slice_subrange(raw, 0, k))
}

/// The raw answers to the four string queries; `None` where the query
/// found no usable value.
pub struct VersionStrings {
    pub company: Option<Vec<u16>>,
    pub product: Option<Vec<u16>>,
    pub description: Option<Vec<u16>>,
    pub version: Option<Vec<u16>>,
}

/// A field's text: the decoded value, or empty when there was none.
pub open spec fn field_text_matches(r: Seq<char>, raw: Option<Vec<u16>>) -> bool {
    match raw {
        Some(units) => code_points(r) == utf16_scalars(until_nul(units@)),
        None => r.len() == 0,
    }
}

fn field_text(raw: &Option<Vec<u16>>) -> (r: String)
    ensures
        field_text_matches(r@, *raw),
{
    match raw {
        Some(units) => decode_version_string(units.as_slice()),
        None => String::new(),
    }
}

/// The version information of the executable at `path`, given the answers
/// to its string queries (`None` when the resource could not be read). An
/// empty path has no version information.
pub fn read_version_info(path: &str, strings: Option<&VersionStrings>) -> (r: VersionInfo)
    ensures
        path@.len() == 0 || strings is None ==> r@ == no_version_info(),
        path@.len() > 0 && strings is Some ==> {
            let s = strings->0;
            &&& field_text_matches(r@.company, s.company)
            &&& field_text_matches(r@.product, s.product)
            &&& field_text_matches(r@.description, s.description)
            &&& field_text_matches(r@.version, s.version)
        },
{
    if path.is_empty() {
        return VersionInfo::empty();
    }
    match strings {
        None => VersionInfo::empty(),
        Some(s) => VersionInfo {
            company: field_text(&s.company),
            product: field_text(&s.product),
            description: field_text(&s.description),
            version: field_text(&s.version),
        },
    }
}

} // verus!

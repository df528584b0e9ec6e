//! Choosing the catalog document and the period files among the entries of a
//! solution archive.
use vstd::prelude::*;
use crate::text::{chars_of, i64_of_text, parse_i64};

verus! {

/// The lower-case form of `s`, as `str::to_lowercase` gives it.
pub uninterp spec fn lower_of(s: Seq<char>) -> Seq<char>;

/// The file stem of the path `s`, as `Path::file_stem` gives it, read lossily
/// as text.
pub uninterp spec fn file_stem_of(s: Seq<char>) -> Option<Seq<char>>;

/// The digits that the pattern `^t_data_(\d+)\.BIN$` captures in `name`.
pub uninterp spec fn bin_digits_of(name: Seq<char>) -> Option<Seq<char>>;

/// Relies on `str::to_lowercase`.
#[verifier::external_body]
fn lowercase(s: &str) -> (r: String)
    ensures
        r@ == lower_of(s@),
{
    s.to_lowercase()
}

/// Relies on `std::path::Path::file_stem`: the file name without its last
/// extension.
#[verifier::external_body]
fn file_stem(s: &str) -> (r: Option<String>)
    ensures
        match file_stem_of(s@) {
            Some(t) => r matches Some(x) && x@ == t,
            None => r is None,
        },
{
    std::path::Path::new(s).file_stem().map(|x| x.to_string_lossy().to_string())
}

/// Relies on `regex::Regex::captures`, on the pattern `^t_data_(\d+)\.BIN$`
/// that `regex::Regex::new` compiles: the captured group, which the pattern
/// places between its literal prefix and suffix.
#[verifier::external_body]
fn bin_digits(name: &str) -> (r: Option<String>)
    ensures
        match bin_digits_of(name@) {
            Some(d) => r matches Some(x) && x@ == d,
            None => r is None,
        },
        r matches Some(x) ==> x@.len() > 0 && name@ == "t_data_"@ + x@ + ".BIN"@,
{
    regex::Regex::new(r"^t_data_(\d+)\.BIN$")
        .ok()
        .and_then(|re| re.captures(name).and_then(|c| c.get(1)).map(|m| m.as_str().to_string()))
}

/// The period type of a period file named `t_data_<digits>.BIN`, where the
/// digits read as an `i64`.
pub open spec fn bin_period_type(name: Seq<char>) -> Option<i64> {
    match bin_digits_of(name) {
        Some(d) => i64_of_text(d),
        None => None,
    }
}

pub fn is_valid_bin_filename(name: &str) -> (r: Option<i64>)
    ensures
        r == bin_period_type(name@),
{
    match bin_digits(name) {
        Some(d) => parse_i64(d.as_str()),
        None => None,
    }
}

pub open spec fn has_suffix(s: Seq<char>, suffix: Seq<char>) -> bool {
    s.len() >= suffix.len() && s.subrange(s.len() - suffix.len(), s.len() as int) == suffix
}

pub open spec fn has_infix(s: Seq<char>, part: Seq<char>) -> bool {
    exists|i: int| 0 <= i && i + part.len() <= s.len() && #[trigger] s.subrange(i, i + part.len()) == part
}

pub open spec fn xml_suffix() -> Seq<char> {
    seq!['.', 'x', 'm', 'l']
}

/// Entry `name` is an XML document: its lower-case name ends in `.xml`.
pub open spec fn is_xml_entry(name: Seq<char>) -> bool {
    has_suffix(lower_of(name), xml_suffix())
}

/// Entry `name` is the XML document named after the archive.
pub open spec fn is_preferred_entry(name: Seq<char>, zip_stem: Seq<char>) -> bool {
    is_xml_entry(name) && file_stem_of(name) == Some(zip_stem)
}

/// Entry `name` is an XML document whose lower-case stem contains the
/// lower-case model name.
pub open spec fn is_model_entry(name: Seq<char>, model_name: Seq<char>) -> bool {
    is_xml_entry(name) && match file_stem_of(name) {
        Some(stem) => has_infix(lower_of(stem), lower_of(model_name)),
        None => false,
    }
}

/// Which rule chose the catalog document.
#[derive(Debug, Clone, Copy, PartialEq, Eq, Structural)]
pub enum XmlFallback {
    /// The document is named after the archive.
    Named,
    /// No document is named after the archive; this one contains the model
    /// name.
    ModelName,
    /// Neither rule applied; this is the first XML document.
    FirstXml,
}

#[derive(Debug, Clone, Copy, PartialEq, Eq, Structural)]
pub struct XmlChoice {
    pub index: usize,
    pub fallback: XmlFallback,
}

/// `i` is the first position of `names` where `p` holds.
pub open spec fn first_at(names: Seq<String>, p: spec_fn(Seq<char>) -> bool, i: int) -> bool {
    0 <= i < names.len() && p(names[i]@) && forall|j: int| 0 <= j < i ==> !p(#[trigger] names[j]@)
}

pub open spec fn none_at(names: Seq<String>, p: spec_fn(Seq<char>) -> bool) -> bool {
    forall|j: int| 0 <= j < names.len() ==> !p(#[trigger] names[j]@)
}

fn ends_with_chars(s: &Vec<char>, suffix: &Vec<char>) -> (r: bool)
    ensures
        r == has_suffix(s@, suffix@),
{
    if s.len() < suffix.len() {
        return false;
    }
    let slen = s.len();
    let off = slen - suffix.len();
    let mut i: usize = 0;
    while i < suffix.len()
        invariant
            slen == s@.len(),
            off + suffix@.len() == s@.len(),
            i <= suffix@.len(),
            forall|j: int| 0 <= j < i ==> s@[off + j] == suffix@[j],
        decreases suffix@.len() - i,
    {
        if s[off + i] != suffix[i] {
            assert(s@.subrange(off as int, s@.len() as int)[i as int] != suffix@[i as int]);
            return false;
        }
        i = i + 1;
    }
    assert(s@.subrange(off as int, s@.len() as int) =~= suffix@);
    true
}

pub(crate) fn contains_chars(s: &Vec<char>, part: &Vec<char>) -> (r: bool)
    ensures
        r == has_infix(s@, part@),
{
    if part.len() == 0 {
        assert(s@.subrange(0, 0 + part@.len() as int) =~= part@);
        assert(has_infix(s@, part@));
        return true;
    }
    if s.len() < part.len() {
        return false;
    }
    let slen = s.len();
    let last = slen - part.len();
    let mut i: usize = 0;
    while i <= last
        invariant
            slen == s@.len(),
            part@.len() > 0,
            last + part@.len() == s@.len(),
            i <= last + 1,
            forall|k: int| 0 <= k < i ==> #[trigger] s@.subrange(k, k + part@.len()) != part@,
        decreases last + 1 - i,
    {
        let mut j: usize = 0;
        let mut same = true;
        while j < part.len() && same
            invariant
                slen == s@.len(),
                i <= last,
                last + part@.len() == s@.len(),
                j <= part@.len(),
                same ==> forall|q: int| 0 <= q < j ==> s@[i + q] == part@[q],
                !same ==> j > 0 && s@[i + j - 1] != part@[j - 1],
            decreases part@.len() - j,
        {
            if s[i + j] != part[j] {
                same = false;
            }
            j = j + 1;
        }
        if same {
            assert(s@.subrange(i as int, i + part@.len()) =~= part@);
            return true;
        }
        assert(s@.subrange(i as int, i + part@.len())[j - 1] != part@[j - 1]);
        i = i + 1;
    }
    proof {
        assert forall|k: int| 0 <= k && k + part@.len() <= s@.len() implies #[trigger] s@.subrange(k, k + part@.len())
            != part@ by {
            assert(k < i);
        }
    }
    false
}

/// Chooses the catalog document among the entries of an archive: the first
/// XML entry whose stem is the archive's stem; else the first XML entry whose
/// lower-case stem contains the lower-case model name; else the first XML
/// entry. `None` where there is no XML entry.
pub fn select_xml_entry(names: &Vec<String>, zip_stem: &str, model_name: &str) -> (r: Option<XmlChoice>)
    ensures
        match r {
            Some(c) => match c.fallback {
                XmlFallback::Named => first_at(names@, |n: Seq<char>| is_preferred_entry(n, zip_stem@), c.index as int),
                XmlFallback::ModelName => none_at(names@, |n: Seq<char>| is_preferred_entry(n, zip_stem@))
                    && first_at(names@, |n: Seq<char>| is_model_entry(n, model_name@), c.index as int),
                XmlFallback::FirstXml => none_at(names@, |n: Seq<char>| is_preferred_entry(n, zip_stem@))
                    && none_at(names@, |n: Seq<char>| is_model_entry(n, model_name@)) && first_at(
                    names@,
                    |n: Seq<char>| is_xml_entry(n),
                    c.index as int,
                ),
            },
            None => none_at(names@, |n: Seq<char>| is_xml_entry(n)),
        },
{
    let ghost pref = |n: Seq<char>| is_preferred_entry(n, zip_stem@);
    let ghost model = |n: Seq<char>| is_model_entry(n, model_name@);
    let ghost xml = |n: Seq<char>| is_xml_entry(n);
    let suffix: Vec<char> = vec!['.', 'x', 'm', 'l'];
    assert(suffix@ =~= xml_suffix());
    let wanted = lowercase(model_name);
    let wanted_chars = chars_of(wanted.as_str());
    let stem_wanted = zip_stem.to_owned();
    let mut model_idx: Option<usize> = None;
    let mut first_idx: Option<usize> = None;
    let mut i: usize = 0;
    while i < names.len()
        invariant
            i <= names@.len(),
            suffix@ == xml_suffix(),
            wanted_chars@ == lower_of(model_name@),
            stem_wanted@ == zip_stem@,
            pref == (|n: Seq<char>| is_preferred_entry(n, zip_stem@)),
            model == (|n: Seq<char>| is_model_entry(n, model_name@)),
            xml == (|n: Seq<char>| is_xml_entry(n)),
            forall|j: int| 0 <= j < i ==> !pref(#[trigger] names@[j]@),
            match model_idx {
                Some(m) => first_at(names@, model, m as int) && m < i,
                None => forall|j: int| 0 <= j < i ==> !model(#[trigger] names@[j]@),
            },
            match first_idx {
                Some(f) => first_at(names@, xml, f as int) && f < i,
                None => forall|j: int| 0 <= j < i ==> !xml(#[trigger] names@[j]@),
            },
        decreases names@.len() - i,
    {
        let name = &names[i];
        let lower = chars_of(lowercase(name.as_str()).as_str());
        if ends_with_chars(&lower, &suffix) {
            match file_stem(name.as_str()) {
                Some(stem) => {
                    if stem == stem_wanted {
                        proof {
                            assert(pref(names@[i as int]@));
                        }
                        return Some(XmlChoice { index: i, fallback: XmlFallback::Named });
                    }
                    let stem_lower = chars_of(lowercase(stem.as_str()).as_str());
                    if model_idx.is_none() && contains_chars(&stem_lower, &wanted_chars) {
                        model_idx = Some(i);
                    }
                },
                None => {},
            }
            if first_idx.is_none() {
                first_idx = Some(i);
            }
        }
        i = i + 1;
    }
    match model_idx {
        Some(m) => Some(XmlChoice { index: m, fallback: XmlFallback::ModelName }),
        None => match first_idx {
            Some(f) => Some(XmlChoice { index: f, fallback: XmlFallback::FirstXml }),
            None => None,
        },
    }
}

} // verus!

//! The catalog document as rows: each child of the root is a row, each child
//! of a row is a field with its text.
use vstd::prelude::*;
use crate::catalog::LoadError;
use crate::text::{bool_of_text, i64_of_text, parse_bool, parse_i64, parse_u64, u64_of_text};

verus! {

/// A child of a row.
#[derive(Debug)]
pub struct XmlField {
    /// Whether the node is an element.
    pub element: bool,
    /// The element's local name; empty for other nodes.
    pub tag: String,
    /// The text of the node's first child, where that child is text.
    pub text: Option<String>,
}

/// A child of the document's root.
#[derive(Debug)]
pub struct XmlRow {
    pub element: bool,
    pub tag: String,
    pub fields: Vec<XmlField>,
}

pub type FieldView = (bool, Seq<char>, Option<Seq<char>>);

pub type RowView = (bool, Seq<char>, Seq<FieldView>);

pub open spec fn field_view(f: XmlField) -> FieldView {
    (
        f.element,
        f.tag@,
        match f.text {
            Some(t) => Some(t@),
            None => None,
        },
    )
}

pub open spec fn row_view(r: XmlRow) -> RowView {
    (r.element, r.tag@, r.fields@.map_values(|f: XmlField| field_view(f)))
}

/// The rows that roxmltree reads from `xml`: for each child node of the root
/// element, whether it is an element, its local name and, for each of its
/// child nodes, the same and its text. `None` where the text is not a
/// well-formed document.
pub uninterp spec fn xml_rows_of(xml: Seq<char>) -> Option<Seq<RowView>>;

/// Relies on `roxmltree::Document::parse`: the document's root element and
/// the two levels of nodes below it, one for one.
#[verifier::external_body]
pub(crate) fn parse_document(xml: &str) -> (r: Result<Vec<XmlRow>, LoadError>)
    ensures
        r is Ok <==> xml_rows_of(xml@) is Some,
        r matches Ok(rows) ==> rows@.map_values(|x: XmlRow| row_view(x)) == xml_rows_of(xml@)->Some_0,
        r matches Err(e) ==> e is Xml,
{
    let doc = roxmltree::Document::parse(xml).map_err(|e| LoadError::Xml { message: e.to_string() })?;
    let node = |n: roxmltree::Node| XmlField {
        element: n.is_element(),
        tag: n.tag_name().name().to_string(),
        text: n.text().map(|t| t.to_string()),
    };
    Ok(doc.root_element().children().map(|n| XmlRow {
        element: n.is_element(),
        tag: n.tag_name().name().to_string(),
        fields: n.children().map(node).collect(),
    }).collect())
}

/// The text of the first element field named `name`: `None` where there is no
/// such field, or where it holds no text.
pub open spec fn field_text(fields: Seq<XmlField>, name: Seq<char>) -> Option<Seq<char>>
    decreases fields.len(),
{
    if fields.len() == 0 {
        None
    } else if fields[0].element && fields[0].tag@ == name {
        match fields[0].text {
            Some(t) => Some(t@),
            None => None,
        }
    } else {
        field_text(fields.drop_first(), name)
    }
}

pub open spec fn text_field(row: XmlRow, name: Seq<char>) -> Option<Seq<char>> {
    field_text(row.fields@, name)
}

pub open spec fn i64_field(row: XmlRow, name: Seq<char>) -> Option<i64> {
    match text_field(row, name) {
        Some(t) => i64_of_text(t),
        None => None,
    }
}

pub open spec fn u64_field(row: XmlRow, name: Seq<char>) -> Option<u64> {
    match text_field(row, name) {
        Some(t) => u64_of_text(t),
        None => None,
    }
}

pub open spec fn bool_field(row: XmlRow, name: Seq<char>) -> Option<bool> {
    match text_field(row, name) {
        Some(t) => bool_of_text(t),
        None => None,
    }
}

/// `e` says that field `name` of `row` is missing.
pub open spec fn missing_error(e: LoadError, row: XmlRow, name: Seq<char>) -> bool {
    e matches LoadError::MissingField { tag, field } && tag@ == row.tag@ && field@ == name
}

/// `e` says that field `name` of `row` does not hold a value of its type.
pub open spec fn invalid_error(e: LoadError, row: XmlRow, name: Seq<char>) -> bool {
    e matches LoadError::InvalidValue { tag, field } && tag@ == row.tag@ && field@ == name
}

/// An error that names a field of a row.
pub open spec fn is_field_error(e: LoadError) -> bool {
    e is MissingField || e is InvalidValue
}

impl XmlRow {
    /// Whether this row is an element named `tag`.
    pub fn is(&self, tag: &str) -> (r: bool)
        ensures
            r == (self.element && self.tag@ == tag@),
    {
        self.element && self.tag == tag.to_owned()
    }

    /// The text of the first element field named `name`.
    pub fn text(&self, name: &str) -> (r: Option<&String>)
        ensures
            match r {
                Some(t) => text_field(*self, name@) == Some(t@),
                None => text_field(*self, name@) is None,
            },
    {
        let key = name.to_owned();
        let mut i: usize = 0;
        assert(self.fields@.skip(0) =~= self.fields@);
        while i < self.fields.len()
            invariant
                key@ == name@,
                i <= self.fields@.len(),
                field_text(self.fields@, name@) == field_text(self.fields@.skip(i as int), name@),
            decreases self.fields@.len() - i,
        {
            let f = &self.fields[i];
            assert(self.fields@.skip(i as int)[0] == *f);
            if f.element && f.tag == key {
                return f.text.as_ref();
            }
            assert(self.fields@.skip(i as int).drop_first() =~= self.fields@.skip(i + 1));
            i = i + 1;
        }
        None
    }

    fn missing(&self, name: &str) -> (e: LoadError)
        ensures
            missing_error(e, *self, name@),
    {
        LoadError::MissingField { tag: self.tag.clone(), field: name.to_owned() }
    }

    pub(crate) fn invalid(&self, name: &str) -> (e: LoadError)
        ensures
            invalid_error(e, *self, name@),
    {
        LoadError::InvalidValue { tag: self.tag.clone(), field: name.to_owned() }
    }

    /// A required integer field.
    pub fn get_i64(&self, name: &str) -> (r: Result<i64, LoadError>)
        ensures
            match text_field(*self, name@) {
                None => r matches Err(e) && missing_error(e, *self, name@),
                Some(t) => match i64_of_text(t) {
                    Some(v) => r == Ok::<i64, LoadError>(v),
                    None => r matches Err(e) && invalid_error(e, *self, name@),
                },
            },
    {
        match self.text(name) {
            Some(t) => match parse_i64(t.as_str()) {
                Some(v) => Ok(v),
                None => Err(self.invalid(name)),
            },
            None => Err(self.missing(name)),
        }
    }

    /// An optional integer field: absent where missing or not an integer.
    pub fn opt_i64(&self, name: &str) -> (r: Option<i64>)
        ensures
            r == i64_field(*self, name@),
    {
        match self.text(name) {
            Some(t) => parse_i64(t.as_str()),
            None => None,
        }
    }

    /// A required unsigned integer field.
    pub fn get_u64(&self, name: &str) -> (r: Result<u64, LoadError>)
        ensures
            match text_field(*self, name@) {
                None => r matches Err(e) && missing_error(e, *self, name@),
                Some(t) => match u64_of_text(t) {
                    Some(v) => r == Ok::<u64, LoadError>(v),
                    None => r matches Err(e) && invalid_error(e, *self, name@),
                },
            },
    {
        match self.text(name) {
            Some(t) => match parse_u64(t.as_str()) {
                Some(v) => Ok(v),
                None => Err(self.invalid(name)),
            },
            None => Err(self.missing(name)),
        }
    }

    /// A required boolean field.
    pub fn get_bool(&self, name: &str) -> (r: Result<bool, LoadError>)
        ensures
            match text_field(*self, name@) {
                None => r matches Err(e) && missing_error(e, *self, name@),
                Some(t) => match bool_of_text(t) {
                    Some(v) => r == Ok::<bool, LoadError>(v),
                    None => r matches Err(e) && invalid_error(e, *self, name@),
                },
            },
    {
        match self.text(name) {
            Some(t) => match parse_bool(t.as_str()) {
                Some(v) => Ok(v),
                None => Err(self.invalid(name)),
            },
            None => Err(self.missing(name)),
        }
    }

    /// A required text field.
    pub fn get_string(&self, name: &str) -> (r: Result<String, LoadError>)
        ensures
            match text_field(*self, name@) {
                Some(t) => r matches Ok(s) && s@ == t,
                None => r matches Err(e) && missing_error(e, *self, name@),
            },
    {
        match self.text(name) {
            Some(t) => Ok(t.clone()),
            None => Err(self.missing(name)),
        }
    }

    /// An optional text field.
    pub fn opt_string(&self, name: &str) -> (r: Option<String>)
        ensures
            match text_field(*self, name@) {
                Some(t) => r matches Some(s) && s@ == t,
                None => r is None,
            },
    {
        match self.text(name) {
            Some(t) => Some(t.clone()),
            None => None,
        }
    }
}

} // verus!

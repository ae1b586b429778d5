//! The parts of a Zephyr devicetree binding that the library reasons about:
//! property types and `include` entries.  Reading the YAML itself happens
//! outside the library.
use vstd::prelude::*;
use crate::model::{strs_v, opt_str_v};
use crate::text::string_of;

verus! {

/// All property types recognised by the Zephyr devicetree binding format.
#[derive(Debug, Clone, Copy, PartialEq, Eq, Hash, Structural)]
pub enum PropertyType {
    String,
    Int,
    Boolean,
    Array,
    Uint8Array,
    StringArray,
    Phandle,
    Phandles,
    PhandleArray,
    Path,
    Compound,
}

/// The name of a property type as bindings write it.
pub open spec fn type_label(t: PropertyType) -> Seq<char> {
    match t {
        PropertyType::String => seq!['s', 't', 'r', 'i', 'n', 'g'],
        PropertyType::Int => seq!['i', 'n', 't'],
        PropertyType::Boolean => seq!['b', 'o', 'o', 'l', 'e', 'a', 'n'],
        PropertyType::Array => seq!['a', 'r', 'r', 'a', 'y'],
        PropertyType::Uint8Array => seq!['u', 'i', 'n', 't', '8', '-', 'a', 'r', 'r', 'a', 'y'],
        PropertyType::StringArray => seq![
            's', 't', 'r', 'i', 'n', 'g', '-', 'a', 'r', 'r', 'a', 'y',
        ],
        PropertyType::Phandle => seq!['p', 'h', 'a', 'n', 'd', 'l', 'e'],
        PropertyType::Phandles => seq!['p', 'h', 'a', 'n', 'd', 'l', 'e', 's'],
        PropertyType::PhandleArray => seq![
            'p', 'h', 'a', 'n', 'd', 'l', 'e', '-', 'a', 'r', 'r', 'a', 'y',
        ],
        PropertyType::Path => seq!['p', 'a', 't', 'h'],
        PropertyType::Compound => seq!['c', 'o', 'm', 'p', 'o', 'u', 'n', 'd'],
    }
}

impl PropertyType {
    /// The name of the type as bindings write it (`"phandle-array"`, ...).
    pub fn to_string(&self) -> (r: String)
        ensures
            r@ == type_label(*self),
    {
        match self {
            PropertyType::String => {
                proof { reveal_strlit("string"); }
                string_of("string")
            },
            PropertyType::Int => {
                proof { reveal_strlit("int"); }
                string_of("int")
            },
            PropertyType::Boolean => {
                proof { reveal_strlit("boolean"); }
                string_of("boolean")
            },
            PropertyType::Array => {
                proof { reveal_strlit("array"); }
                string_of("array")
            },
            PropertyType::Uint8Array => {
                proof { reveal_strlit("uint8-array"); }
                string_of("uint8-array")
            },
            PropertyType::StringArray => {
                proof { reveal_strlit("string-array"); }
                string_of("string-array")
            },
            PropertyType::Phandle => {
                proof { reveal_strlit("phandle"); }
                string_of("phandle")
            },
            PropertyType::Phandles => {
                proof { reveal_strlit("phandles"); }
                string_of("phandles")
            },
            PropertyType::PhandleArray => {
                proof { reveal_strlit("phandle-array"); }
                string_of("phandle-array")
            },
            PropertyType::Path => {
                proof { reveal_strlit("path"); }
                string_of("path")
            },
            PropertyType::Compound => {
                proof { reveal_strlit("compound"); }
                string_of("compound")
            },
        }
    }
}

/// A filtered include entry: a binding file together with the property
/// allow- and block-lists applied to what it contributes.
#[derive(Debug, Clone, PartialEq)]
pub struct FilteredInclude {
    pub name: String,
    pub property_allowlist: Option<Vec<String>>,
    pub property_blocklist: Option<Vec<String>>,
}

pub struct FilteredV {
    pub name: Seq<char>,
    pub property_allowlist: Option<Seq<Seq<char>>>,
    pub property_blocklist: Option<Seq<Seq<char>>>,
}

impl View for FilteredInclude {
    type V = FilteredV;

    open spec fn view(&self) -> FilteredV {
        FilteredV {
            name: self.name@,
            property_allowlist: match self.property_allowlist {
                Some(v) => Some(strs_v(v@)),
                None => None,
            },
            property_blocklist: match self.property_blocklist {
                Some(v) => Some(strs_v(v@)),
                None => None,
            },
        }
    }
}

/// One entry in an `include` list: a plain file name or a filtered include.
#[derive(Debug, Clone, PartialEq)]
pub enum IncludeEntry {
    Name(String),
    Filtered(FilteredInclude),
}

/// The file an include entry names, whatever its form.
pub open spec fn entry_file(e: IncludeEntry) -> Seq<char> {
    match e {
        IncludeEntry::Name(n) => n@,
        IncludeEntry::Filtered(f) => f.name@,
    }
}

impl IncludeEntry {
    /// The file name, whatever the form of the entry.
    pub fn file_name(&self) -> (r: &str)
        ensures
            r@ == entry_file(*self),
    {
        match self {
            IncludeEntry::Name(n) => n.as_str(),
            IncludeEntry::Filtered(f) => f.name.as_str(),
        }
    }

    /// The filter details of a filtered entry; `None` for a plain name.
    pub fn filter(&self) -> (r: Option<&FilteredInclude>)
        ensures
            match *self {
                IncludeEntry::Name(_) => r is None,
                IncludeEntry::Filtered(f) => r == Some(&f),
            },
    {
        match self {
            IncludeEntry::Name(_) => None,
            IncludeEntry::Filtered(f) => Some(f),
        }
    }
}

/// The `include` field of a binding: one file name, or a list of entries.
#[derive(Debug, Clone, PartialEq)]
pub enum BindingInclude {
    Single(String),
    List(Vec<IncludeEntry>),
}

/// Every file an `include` field names, in the order written.
pub open spec fn include_files(b: BindingInclude) -> Seq<Seq<char>> {
    match b {
        BindingInclude::Single(s) => seq![s@],
        BindingInclude::List(v) => v@.map_values(|e: IncludeEntry| entry_file(e)),
    }
}

impl BindingInclude {
    /// Every included file name, in the order written.
    pub fn file_names(&self) -> (r: Vec<&str>)
        ensures
            r@.map_values(|x: &str| x@) == include_files(*self),
    {
        match self {
            BindingInclude::Single(s) => {
                let mut r: Vec<&str> = Vec::new();
                r.push(s.as_str());
                assert(r@.map_values(|x: &str| x@) =~= seq![s@]);
                r
            },
            BindingInclude::List(entries) => {
                let mut r: Vec<&str> = Vec::new();
                let mut k: usize = 0;
                while k < entries.len()
                    invariant
                        k <= entries.len(),
                        r@.map_values(|x: &str| x@) =~= entries@.subrange(0, k as int).map_values(
                            |e: IncludeEntry| entry_file(e),
                        ),
                    decreases entries.len() - k,
                {
                    let ghost before = r@;
                    r.push(entries[k].file_name());
                    assert(entries@.subrange(0, k + 1).map_values(|e: IncludeEntry| entry_file(e))
                        =~= entries@.subrange(0, k as int).map_values(
                        |e: IncludeEntry| entry_file(e),
                    ).push(entry_file(entries@[k as int])));
                    assert(r@.map_values(|x: &str| x@) =~= before.map_values(|x: &str| x@).push(
                        entry_file(entries@[k as int]),
                    ));
                    k = k + 1;
                }
                assert(entries@.subrange(0, entries@.len() as int) =~= entries@);
                r
            },
        }
    }
}

} // verus!

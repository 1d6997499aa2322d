//! Lightweight projections of catalog records, used for list rendering and
//! search, together with the canonical ordering rule of the preview list.

use vstd::prelude::*;
use crate::text::{
    dec_rep, lex_le, lemma_lex_le_total, lemma_lex_le_trans, lower_of, seq_contains, str_le,
};

verus! {

/// The abstract value of a preview: plain data over character sequences.
#[verifier::ext_equal]
pub ghost struct PreviewView {
    pub id: u32,
    pub address: Option<i32>,
    pub name: Option<Seq<char>>,
    pub lokmaus_name: Option<Seq<char>>,
    pub search_text: Seq<char>,
}

/// A read-only projection of a record: id, address, name, short display name,
/// and a precomputed lowercase-folded search string.
pub struct PreviewLok {
    id: u32,
    address: Option<i32>,
    name: Option<String>,
    lokmaus_name: Option<String>,
    search_text: String,
}

/// A preview row as the storage layer hands it over: absence is encoded as a
/// negative address or an empty string.
pub struct PreviewData {
    pub id: i32,
    pub address: i32,
    pub name: String,
    pub lokmaus_name: String,
}

#[verifier::ext_equal]
pub ghost struct PreviewDataView {
    pub id: i32,
    pub address: i32,
    pub name: Seq<char>,
    pub lokmaus_name: Seq<char>,
}

pub open spec fn opt_str_view(o: Option<String>) -> Option<Seq<char>> {
    match o {
        Some(s) => Some(s@),
        None => None,
    }
}

impl View for PreviewLok {
    type V = PreviewView;

    closed spec fn view(&self) -> PreviewView {
        PreviewView {
            id: self.id,
            address: self.address,
            name: opt_str_view(self.name),
            lokmaus_name: opt_str_view(self.lokmaus_name),
            search_text: self.search_text@,
        }
    }
}

impl View for PreviewData {
    type V = PreviewDataView;

    open spec fn view(&self) -> PreviewDataView {
        PreviewDataView {
            id: self.id,
            address: self.address,
            name: self.name@,
            lokmaus_name: self.lokmaus_name@,
        }
    }
}

/// The digits of an address as they appear in the search string: empty when
/// the address is absent or negative.
pub open spec fn addr_text(a: Option<i32>) -> Seq<char> {
    match a {
        Some(x) => if x >= 0 {
            dec_rep(x as nat)
        } else {
            Seq::<char>::empty()
        },
        None => Seq::<char>::empty(),
    }
}

pub open spec fn opt_text(o: Option<Seq<char>>) -> Seq<char> {
    match o {
        Some(s) => s,
        None => Seq::<char>::empty(),
    }
}

/// The search string of a preview: address, name and short name joined by
/// single spaces, folded to lowercase.
pub open spec fn search_text_of(
    address: Option<i32>,
    name: Option<Seq<char>>,
    lokmaus_name: Option<Seq<char>>,
) -> Seq<char> {
    lower_of(addr_text(address) + " "@ + opt_text(name) + " "@ + opt_text(lokmaus_name))
}

/// The preview a raw storage row denotes.
pub open spec fn preview_from_raw(d: PreviewDataView) -> PreviewView {
    let address = if d.address < 0 {
        None
    } else {
        Some(d.address)
    };
    let name = if d.name.len() == 0 {
        None
    } else {
        Some(d.name)
    };
    let lokmaus_name = if d.lokmaus_name.len() == 0 {
        None
    } else {
        Some(d.lokmaus_name)
    };
    PreviewView {
        id: d.id as u32,
        address,
        name,
        lokmaus_name,
        search_text: search_text_of(address, name, lokmaus_name),
    }
}

/// Order on optional addresses: an absent address sorts before any present
/// one, present addresses sort by value.
pub open spec fn opt_addr_le(a: Option<i32>, b: Option<i32>) -> bool {
    match (a, b) {
        (Option::None, _) => true,
        (Option::Some(_), Option::None) => false,
        (Option::Some(x), Option::Some(y)) => x <= y,
    }
}

/// Order on optional names: absent first, else lexicographic.
pub open spec fn opt_name_le(a: Option<Seq<char>>, b: Option<Seq<char>>) -> bool {
    match (a, b) {
        (Option::None, _) => true,
        (Option::Some(_), Option::None) => false,
        (Option::Some(x), Option::Some(y)) => lex_le(x, y),
    }
}

/// The canonical list order: when either side has an address, compare by
/// address with absent sorting first; otherwise compare by name.
pub open spec fn preview_le(a: PreviewView, b: PreviewView) -> bool {
    if a.address is Some || b.address is Some {
        opt_addr_le(a.address, b.address)
    } else {
        opt_name_le(a.name, b.name)
    }
}

/// Any two previews are ordered one way or the other.
pub proof fn lemma_preview_le_total(a: PreviewView, b: PreviewView)
    ensures
        preview_le(a, b) || preview_le(b, a),
{
    match (a.name, b.name) {
        (Option::Some(x), Option::Some(y)) => lemma_lex_le_total(x, y),
        _ => {},
    }
}

/// The canonical list order is transitive.
pub proof fn lemma_preview_le_trans(a: PreviewView, b: PreviewView, c: PreviewView)
    requires
        preview_le(a, b),
        preview_le(b, c),
    ensures
        preview_le(a, c),
{
    match (a.name, b.name, c.name) {
        (Option::Some(x), Option::Some(y), Option::Some(z)) => {
            if a.address is None && b.address is None && c.address is None {
                lemma_lex_le_trans(x, y, z);
            }
        },
        _ => {},
    }
}

impl PreviewLok {
    /// Builds a preview and its search string from already-normalized parts.
    pub(crate) fn new(
        id: u32,
        address: Option<i32>,
        name: Option<String>,
        lokmaus_name: Option<String>,
    ) -> (r: PreviewLok)
        ensures
            r@ == (PreviewView {
                id,
                address,
                name: opt_str_view(name),
                lokmaus_name: opt_str_view(lokmaus_name),
                search_text: search_text_of(
                    address,
                    opt_str_view(name),
                    opt_str_view(lokmaus_name),
                ),
            }),
    {
        let mut raw = String::new();
        match address {
            Some(a) => {
                if a >= 0 {
                    let digits = crate::text::dec_string(a as u32);
                    raw.append(digits.as_str());
                }
            },
            None => {},
        }
        raw.append(" ");
        match &name {
            Some(n) => { raw.append(n.as_str()) },
            None => {},
        }
        raw.append(" ");
        match &lokmaus_name {
            Some(n) => { raw.append(n.as_str()) },
            None => {},
        }
        proof {
            assert(raw@ =~= addr_text(address) + " "@ + opt_text(opt_str_view(name)) + " "@
                + opt_text(opt_str_view(lokmaus_name)));
        }
        let search_text = crate::text::to_lowercase(raw.as_str());
        PreviewLok { id, address, name, lokmaus_name, search_text }
    }

    /// Builds a preview from a raw storage row, turning a negative address or
    /// an empty string into an absent field.
    pub fn new_from_raw_preview_data(data: &PreviewData) -> (r: PreviewLok)
        requires
            data@.id >= 0,
        ensures
            r@ == preview_from_raw(data@),
    {
        PreviewLok::new(
            data.id as u32,
            if data.address < 0 {
                None
            } else {
                Some(data.address)
            },
            if data.name.as_str().is_empty() {
                None
            } else {
                Some(data.name.clone())
            },
            if data.lokmaus_name.as_str().is_empty() {
                None
            } else {
                Some(data.lokmaus_name.clone())
            },
        )
    }

    pub fn get_id(&self) -> (r: u32)
        ensures
            r == self@.id,
    {
        self.id
    }

    pub fn get_address(&self) -> (r: Option<i32>)
        ensures
            r == self@.address,
    {
        self.address
    }

    pub fn get_name(&self) -> (r: Option<String>)
        ensures
            opt_str_view(r) == self@.name,
    {
        match &self.name {
            Some(n) => Some(n.clone()),
            None => None,
        }
    }

    pub fn get_lokmaus_name(&self) -> (r: Option<String>)
        ensures
            opt_str_view(r) == self@.lokmaus_name,
    {
        match &self.lokmaus_name {
            Some(n) => Some(n.clone()),
            None => None,
        }
    }

    /// The address as text, or the placeholder when it is absent or negative.
    pub fn get_address_pretty(&self) -> (r: String)
        ensures
            r@ == (match self@.address {
                Option::Some(a) => if a >= 0 {
                    dec_rep(a as nat)
                } else {
                    "---"@
                },
                Option::None => "---"@,
            }),
    {
        match self.address {
            Some(a) => {
                if a >= 0 {
                    crate::text::dec_string(a as u32)
                } else {
                    no_data_string()
                }
            },
            None => no_data_string(),
        }
    }

    /// The name, or the placeholder when it is absent.
    pub fn get_name_pretty(&self) -> (r: String)
        ensures
            r@ == (match self@.name {
                Option::Some(n) => n,
                Option::None => "---"@,
            }),
    {
        match &self.name {
            Some(n) => n.clone(),
            None => no_data_string(),
        }
    }

    /// The short display name, or the placeholder when it is absent.
    pub fn get_lokmaus_name_pretty(&self) -> (r: String)
        ensures
            r@ == (match self@.lokmaus_name {
                Option::Some(n) => n,
                Option::None => "---"@,
            }),
    {
        match &self.lokmaus_name {
            Some(n) => n.clone(),
            None => no_data_string(),
        }
    }

    pub fn get_search_string(&self) -> (r: String)
        ensures
            r@ == self@.search_text,
    {
        self.search_text.clone()
    }

    /// Decides the canonical list order against another preview.
    pub fn cmp_le(&self, other: &PreviewLok) -> (r: bool)
        ensures
            r == preview_le(self@, other@),
    {
        match (&self.address, &other.address) {
            (None, None) => match (&self.name, &other.name) {
                (None, _) => true,
                (Some(_), None) => false,
                (Some(x), Some(y)) => str_le(x.as_str(), y.as_str()),
            },
            (None, Some(_)) => true,
            (Some(_), None) => false,
            (Some(x), Some(y)) => *x <= *y,
        }
    }

    /// Whether this preview's search string contains the given query.
    pub fn matches_search(&self, query: &str) -> (r: bool)
        ensures
            r == seq_contains(self@.search_text, query@),
    {
        crate::text::str_contains(self.search_text.as_str(), query)
    }
}

impl Clone for PreviewLok {
    /// A deep copy with the same abstract value.
    fn clone(&self) -> (r: Self)
        ensures
            r == *self,
    {
        let r = PreviewLok {
            id: self.id,
            address: self.address,
            name: match &self.name {
                Some(n) => Some(n.clone()),
                None => None,
            },
            lokmaus_name: match &self.lokmaus_name {
                Some(n) => Some(n.clone()),
                None => None,
            },
            search_text: self.search_text.clone(),
        };
        proof {
            assert(r == *self);
        }
        r
    }
}

/// The placeholder shown for a missing field.
pub(crate) fn no_data_string() -> (r: String)
    ensures
        r@ == "---"@,
{
    String::from_str("---")
}

} // verus!

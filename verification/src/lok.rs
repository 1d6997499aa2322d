//! The full catalog record and its exact conversion to and from the raw
//! storage row, where absence is encoded as a negative number or an empty
//! string.

use vstd::prelude::*;
use crate::preview_lok::{
    no_data_string, opt_str_view, search_text_of, PreviewLok, PreviewView,
};
use crate::text::dec_rep;

verus! {

/// The abstract value of a record.
#[verifier::ext_equal]
pub ghost struct LokView {
    pub name: Seq<char>,
    pub address: Option<i32>,
    pub lokmaus_name: Option<Seq<char>>,
    pub producer: Option<Seq<char>>,
    pub management: Option<Seq<char>>,
    pub has_decoder: bool,
    pub image_path: Option<Seq<char>>,
}

/// A full catalog record. Optional fields are `None` when no data was given;
/// constructors normalize raw storage values so that no negative address and
/// no empty optional string is ever stored here.
pub struct Lok {
    pub name: String,
    pub address: Option<i32>,
    pub lokmaus_name: Option<String>,
    pub producer: Option<String>,
    pub management: Option<String>,
    pub has_decoder: bool,
    pub image_path: Option<String>,
}

impl View for Lok {
    type V = LokView;

    open spec fn view(&self) -> LokView {
        LokView {
            name: self.name@,
            address: self.address,
            lokmaus_name: opt_str_view(self.lokmaus_name),
            producer: opt_str_view(self.producer),
            management: opt_str_view(self.management),
            has_decoder: self.has_decoder,
            image_path: opt_str_view(self.image_path),
        }
    }
}

/// A record as one storage row: every field plain, absence encoded in-band.
pub struct RawLokData {
    pub id: i32,
    pub name: String,
    pub address: i32,
    pub lokmaus_name: String,
    pub producer: String,
    pub management: String,
    pub has_decoder: bool,
    pub image_path: String,
}

#[verifier::ext_equal]
pub ghost struct RawLokView {
    pub id: i32,
    pub name: Seq<char>,
    pub address: i32,
    pub lokmaus_name: Seq<char>,
    pub producer: Seq<char>,
    pub management: Seq<char>,
    pub has_decoder: bool,
    pub image_path: Seq<char>,
}

impl View for RawLokData {
    type V = RawLokView;

    open spec fn view(&self) -> RawLokView {
        RawLokView {
            id: self.id,
            name: self.name@,
            address: self.address,
            lokmaus_name: self.lokmaus_name@,
            producer: self.producer@,
            management: self.management@,
            has_decoder: self.has_decoder,
            image_path: self.image_path@,
        }
    }
}

pub open spec fn norm_addr(a: i32) -> Option<i32> {
    if a < 0 {
        None
    } else {
        Some(a)
    }
}

pub open spec fn norm_str(s: Seq<char>) -> Option<Seq<char>> {
    if s.len() == 0 {
        None
    } else {
        Some(s)
    }
}

/// The record a raw storage row denotes: a negative address and empty
/// optional strings become absent fields.
pub open spec fn raw_to_lok(r: RawLokView) -> LokView {
    LokView {
        name: r.name,
        address: norm_addr(r.address),
        lokmaus_name: norm_str(r.lokmaus_name),
        producer: norm_str(r.producer),
        management: norm_str(r.management),
        has_decoder: r.has_decoder,
        image_path: norm_str(r.image_path),
    }
}

/// The storage row a record is written as: an absent address becomes the
/// negative sentinel, absent strings become empty.
pub open spec fn lok_to_raw(l: LokView) -> RawLokView {
    RawLokView {
        id: 0,
        name: l.name,
        address: match l.address {
            Option::Some(a) => a,
            Option::None => (-1) as i32,
        },
        lokmaus_name: crate::preview_lok::opt_text(l.lokmaus_name),
        producer: crate::preview_lok::opt_text(l.producer),
        management: crate::preview_lok::opt_text(l.management),
        has_decoder: l.has_decoder,
        image_path: crate::preview_lok::opt_text(l.image_path),
    }
}

/// A record as the constructors produce it: no present-but-negative address
/// and no present-but-empty optional string.
pub open spec fn lok_normalized(l: LokView) -> bool {
    &&& (l.address matches Option::Some(a) ==> a >= 0)
    &&& (l.lokmaus_name matches Option::Some(s) ==> s.len() > 0)
    &&& (l.producer matches Option::Some(s) ==> s.len() > 0)
    &&& (l.management matches Option::Some(s) ==> s.len() > 0)
    &&& (l.image_path matches Option::Some(s) ==> s.len() > 0)
}

/// Round trip of optional fields: a normalized record written as a storage
/// row and read back is unchanged; in particular an absent address stays
/// absent rather than becoming a sentinel value.
pub proof fn lemma_raw_round_trip(l: LokView)
    requires
        lok_normalized(l),
    ensures
        raw_to_lok(lok_to_raw(l)) == l,
{
    assert(raw_to_lok(lok_to_raw(l)) =~= l);
}

/// The preview derived from a record under a given id: the id, the address,
/// the name (absent when empty), the short name, and the search string.
pub open spec fn preview_of(l: LokView, id: u32) -> PreviewView {
    PreviewView {
        id,
        address: l.address,
        name: norm_str(l.name),
        lokmaus_name: l.lokmaus_name,
        search_text: search_text_of(l.address, norm_str(l.name), l.lokmaus_name),
    }
}

impl Lok {
    fn new(
        name: String,
        address: Option<i32>,
        lokmaus_name: Option<String>,
        producer: Option<String>,
        management: Option<String>,
        has_decoder: bool,
        image_path: Option<String>,
    ) -> (r: Lok)
        ensures
            r@ == (LokView {
                name: name@,
                address,
                lokmaus_name: opt_str_view(lokmaus_name),
                producer: opt_str_view(producer),
                management: opt_str_view(management),
                has_decoder,
                image_path: opt_str_view(image_path),
            }),
    {
        Lok { name, address, lokmaus_name, producer, management, has_decoder, image_path }
    }

    /// Rehydrates a record from a storage row, normalizing in-band absence
    /// markers to absent fields.
    pub fn new_from_raw_lok_data(raw_lok_data: &RawLokData) -> (r: Lok)
        ensures
            r@ == raw_to_lok(raw_lok_data@),
            lok_normalized(r@),
    {
        Lok::new(
            raw_lok_data.name.clone(),
            if raw_lok_data.address < 0 {
                None
            } else {
                Some(raw_lok_data.address)
            },
            if raw_lok_data.lokmaus_name.as_str().is_empty() {
                None
            } else {
                Some(raw_lok_data.lokmaus_name.clone())
            },
            if raw_lok_data.producer.as_str().is_empty() {
                None
            } else {
                Some(raw_lok_data.producer.clone())
            },
            if raw_lok_data.management.as_str().is_empty() {
                None
            } else {
                Some(raw_lok_data.management.clone())
            },
            raw_lok_data.has_decoder,
            if raw_lok_data.image_path.as_str().is_empty() {
                None
            } else {
                Some(raw_lok_data.image_path.clone())
            },
        )
    }

    /// Builds a record from plain user input, normalizing as a storage row
    /// would be normalized.
    pub fn new_from_raw_data(
        name: String,
        address: i32,
        lokmaus_name: String,
        producer: String,
        management: String,
        has_decoder: bool,
        image_path: String,
    ) -> (r: Lok)
        ensures
            r@ == raw_to_lok(
                RawLokView {
                    id: 0,
                    name: name@,
                    address,
                    lokmaus_name: lokmaus_name@,
                    producer: producer@,
                    management: management@,
                    has_decoder,
                    image_path: image_path@,
                },
            ),
            lok_normalized(r@),
    {
        Lok::new_from_raw_lok_data(
            &RawLokData {
                id: 0,
                name,
                address,
                lokmaus_name,
                producer,
                management,
                has_decoder,
                image_path,
            },
        )
    }

    /// Writes the record as a storage row.
    pub fn as_raw_lok_data(&self) -> (r: RawLokData)
        ensures
            r@ == lok_to_raw(self@),
    {
        RawLokData {
            id: 0,
            name: self.name.clone(),
            address: match self.address {
                Some(adress) => adress,
                None => -1,
            },
            lokmaus_name: match &self.lokmaus_name {
                Some(lokmaus_name) => lokmaus_name.clone(),
                None => String::new(),
            },
            producer: match &self.producer {
                Some(producer) => producer.clone(),
                None => String::new(),
            },
            management: match &self.management {
                Some(management) => management.clone(),
                None => String::new(),
            },
            has_decoder: self.has_decoder,
            image_path: match &self.image_path {
                Some(image_path) => image_path.clone(),
                None => String::new(),
            },
        }
    }

    /// Derives the preview of this record under the given id; an empty name
    /// is recorded as absent, as the storage projection records it.
    pub fn as_preview_lok(&self, id: u32) -> (r: PreviewLok)
        ensures
            r@ == preview_of(self@, id),
    {
        PreviewLok::new(
            id,
            self.address,
            if self.name.as_str().is_empty() {
                None
            } else {
                Some(self.name.clone())
            },
            match &self.lokmaus_name {
                Some(n) => Some(n.clone()),
                None => None,
            },
        )
    }

    /// The address as text, or the placeholder when it is absent or negative.
    pub fn get_address_pretty(&self) -> (r: String)
        ensures
            r@ == (match self@.address {
                Option::Some(a) => if a >= 0 {
                    dec_rep(a as nat)
                } else {
                    "---"@
                },
                Option::None => "---"@,
            }),
    {
        match self.address {
            Some(address) => {
                if address >= 0 {
                    crate::text::dec_string(address as u32)
                } else {
                    no_data_string()
                }
            },
            None => no_data_string(),
        }
    }

    /// The short display name, or the placeholder when it is absent.
    pub fn get_lokmaus_name_pretty(&self) -> (r: String)
        ensures
            r@ == (match self@.lokmaus_name {
                Option::Some(n) => n,
                Option::None => "---"@,
            }),
    {
        match &self.lokmaus_name {
            Some(lokmaus_name) => lokmaus_name.clone(),
            None => no_data_string(),
        }
    }

    /// The producer, or the placeholder when it is absent.
    pub fn get_producer_pretty(&self) -> (r: String)
        ensures
            r@ == (match self@.producer {
                Option::Some(p) => p,
                Option::None => "---"@,
            }),
    {
        match &self.producer {
            Some(producer) => producer.clone(),
            None => no_data_string(),
        }
    }

    /// The administration, or the placeholder when it is absent.
    pub fn get_management_pretty(&self) -> (r: String)
        ensures
            r@ == (match self@.management {
                Option::Some(m) => m,
                Option::None => "---"@,
            }),
    {
        match &self.management {
            Some(management) => management.clone(),
            None => no_data_string(),
        }
    }

    pub fn get_has_decoder(&self) -> (r: bool)
        ensures
            r == self@.has_decoder,
    {
        self.has_decoder
    }

    /// The image path, or an empty string when none is set.
    pub fn get_image_path(&self) -> (r: String)
        ensures
            r@ == crate::preview_lok::opt_text(self@.image_path),
    {
        match &self.image_path {
            Some(image_path) => image_path.clone(),
            None => String::new(),
        }
    }
}

impl Clone for Lok {
    /// A deep copy with the same abstract value.
    fn clone(&self) -> (r: Self)
        ensures
            r == *self,
    {
        let r = Lok {
            name: self.name.clone(),
            address: self.address,
            lokmaus_name: match &self.lokmaus_name {
                Some(n) => Some(n.clone()),
                None => None,
            },
            producer: match &self.producer {
                Some(n) => Some(n.clone()),
                None => None,
            },
            management: match &self.management {
                Some(n) => Some(n.clone()),
                None => None,
            },
            has_decoder: self.has_decoder,
            image_path: match &self.image_path {
                Some(n) => Some(n.clone()),
                None => None,
            },
        };
        proof {
            assert(r == *self);
        }
        r
    }
}

} // verus!

//! The user-input state a record is built from, and its validation rules.

use vstd::prelude::*;
use crate::lok::{lok_normalized, raw_to_lok, Lok, RawLokView};
use crate::text::{int_value, is_i32_literal, upper_of};

verus! {

/// The abstract value of the input state.
#[verifier::ext_equal]
pub ghost struct StateView {
    pub name_input: Seq<char>,
    pub address_input: Seq<char>,
    pub lok_maus_name_input: Seq<char>,
    pub producer_input: Seq<char>,
    pub management_input: Seq<char>,
    pub has_decoder_input: bool,
    pub image_path_input: Seq<char>,
    pub search_input: Seq<char>,
    pub selected_lok_id: Option<u32>,
}

/// The data entered so far: one field per input, plus the selected record.
pub struct State {
    pub name_input: String,
    pub address_input: String,
    pub lok_maus_name_input: String,
    pub producer_input: String,
    pub management_input: String,
    pub has_decoder_input: bool,
    pub image_path_input: String,
    pub search_input: String,
    pub selected_lok_id: Option<u32>,
}

impl View for State {
    type V = StateView;

    open spec fn view(&self) -> StateView {
        StateView {
            name_input: self.name_input@,
            address_input: self.address_input@,
            lok_maus_name_input: self.lok_maus_name_input@,
            producer_input: self.producer_input@,
            management_input: self.management_input@,
            has_decoder_input: self.has_decoder_input,
            image_path_input: self.image_path_input@,
            search_input: self.search_input@,
            selected_lok_id: self.selected_lok_id,
        }
    }
}

/// The state with nothing entered.
pub open spec fn empty_state() -> StateView {
    StateView {
        name_input: Seq::<char>::empty(),
        address_input: Seq::<char>::empty(),
        lok_maus_name_input: Seq::<char>::empty(),
        producer_input: Seq::<char>::empty(),
        management_input: Seq::<char>::empty(),
        has_decoder_input: false,
        image_path_input: Seq::<char>::empty(),
        search_input: Seq::<char>::empty(),
        selected_lok_id: None,
    }
}

/// The raw address value the inputs denote: the entered number when the
/// record has a decoder and the input parses, else the absent sentinel.
pub open spec fn state_address(s: StateView) -> i32 {
    if s.has_decoder_input && is_i32_literal(s.address_input) {
        int_value(s.address_input) as i32
    } else {
        (-1) as i32
    }
}

/// The short display name the inputs denote: uppercase-folded when the
/// record has a decoder, else empty.
pub open spec fn state_lokmaus_name(s: StateView) -> Seq<char> {
    if s.has_decoder_input {
        upper_of(s.lok_maus_name_input)
    } else {
        Seq::<char>::empty()
    }
}

/// The raw storage row the inputs denote.
pub open spec fn state_raw(s: StateView) -> RawLokView {
    RawLokView {
        id: 0,
        name: s.name_input,
        address: state_address(s),
        lokmaus_name: state_lokmaus_name(s),
        producer: s.producer_input,
        management: s.management_input,
        has_decoder: s.has_decoder_input,
        image_path: s.image_path_input,
    }
}

/// Why an input state is rejected.
#[derive(Clone, Copy, Debug, PartialEq, Eq, Structural)]
pub enum ValidationError {
    /// The name field is empty.
    EmptyName,
    /// The address field holds something other than a number.
    AddressNotANumber,
    /// The address is zero or negative.
    AddressNotPositive,
    /// The short display name is longer than five characters.
    LokmausNameTooLong,
}

/// The validation verdict on an input state: the name must not be empty,
/// and when the record has a decoder, a non-empty address must be a
/// positive number and the short display name at most five characters.
pub open spec fn state_validation(s: StateView) -> Result<(), ValidationError> {
    if s.name_input.len() == 0 {
        Err(ValidationError::EmptyName)
    } else if s.has_decoder_input && s.address_input.len() > 0 && !is_i32_literal(
        s.address_input,
    ) {
        Err(ValidationError::AddressNotANumber)
    } else if s.has_decoder_input && s.address_input.len() > 0 && int_value(s.address_input)
        <= 0 {
        Err(ValidationError::AddressNotPositive)
    } else if s.has_decoder_input && s.lok_maus_name_input.len() > 5 {
        Err(ValidationError::LokmausNameTooLong)
    } else {
        Ok(())
    }
}

impl State {
    /// Clears every input back to the empty state.
    pub fn clear(&mut self)
        ensures
            final(self)@ == empty_state(),
    {
        self.name_input = String::new();
        self.address_input = String::new();
        self.lok_maus_name_input = String::new();
        self.producer_input = String::new();
        self.management_input = String::new();
        self.has_decoder_input = false;
        self.image_path_input = String::new();
        self.search_input = String::new();
        self.selected_lok_id = None;
        proof {
            assert(self@ =~= empty_state());
        }
    }

    /// Builds a record from the entered data: without a decoder the address
    /// and short name are absent; with one, the address is the entered
    /// number (absent when it does not parse) and the short name is folded
    /// to uppercase.
    pub fn get_lok_from_current_state(&self) -> (r: Lok)
        ensures
            r@ == raw_to_lok(state_raw(self@)),
            lok_normalized(r@),
    {
        let address: i32 = if self.has_decoder_input {
            match crate::text::parse_i32(self.address_input.as_str()) {
                Some(v) => v,
                None => -1,
            }
        } else {
            -1
        };
        let lokmaus_name: String = if self.has_decoder_input {
            crate::text::to_uppercase(self.lok_maus_name_input.as_str())
        } else {
            String::new()
        };
        Lok::new_from_raw_data(
            self.name_input.clone(),
            address,
            lokmaus_name,
            self.producer_input.clone(),
            self.management_input.clone(),
            self.has_decoder_input,
            self.image_path_input.clone(),
        )
    }

    /// Validates the entered data, reporting exactly why it is rejected.
    pub fn validate(&self) -> (r: Result<(), ValidationError>)
        ensures
            r == state_validation(self@),
    {
        if self.name_input.as_str().unicode_len() == 0 {
            return Err(ValidationError::EmptyName);
        }
        if self.has_decoder_input {
            if self.address_input.as_str().unicode_len() > 0 {
                match crate::text::parse_i32(self.address_input.as_str()) {
                    Some(address) => {
                        if address <= 0 {
                            return Err(ValidationError::AddressNotPositive);
                        }
                    },
                    None => {
                        return Err(ValidationError::AddressNotANumber);
                    },
                }
            }
            if self.lok_maus_name_input.as_str().unicode_len() > 5 {
                return Err(ValidationError::LokmausNameTooLong);
            }
        }
        Ok(())
    }
}

impl Default for State {
    /// The state with nothing entered.
    fn default() -> (r: State)
        ensures
            r@ == empty_state(),
    {
        let r = State {
            name_input: String::new(),
            address_input: String::new(),
            lok_maus_name_input: String::new(),
            producer_input: String::new(),
            management_input: String::new(),
            has_decoder_input: false,
            image_path_input: String::new(),
            search_input: String::new(),
            selected_lok_id: None,
        };
        proof {
            assert(r@ =~= empty_state());
        }
        r
    }
}

} // verus!

//! Animal ids: short texts held in an `arrayvec::ArrayString`.
use vstd::prelude::*;
use vstd::string::StringSliceAdditionalSpecFns;

verus! {

#[verifier::external_type_specification]
#[verifier::external_body]
pub struct ExArrayString<const CAP: usize>(arrayvec::ArrayString<CAP>);

/// `ArrayString::clone` copies the string: the clone is the same value.
pub assume_specification<const CAP: usize>[ <arrayvec::ArrayString<CAP> as Clone>::clone ](
    s: &arrayvec::ArrayString<CAP>,
) -> (r: arrayvec::ArrayString<CAP>)
    ensures
        r == *s,
;

/// Id of an animal kind, such as "fox"; at most twenty bytes of UTF-8.
pub type AnimalId = arrayvec::ArrayString<20>;

/// The text that an animal id holds.
pub uninterp spec fn animal_id_text(id: arrayvec::ArrayString<20>) -> Seq<char>;

/// Two ids name the same animal when their texts are equal.
pub open spec fn same_animal(a: AnimalId, b: AnimalId) -> bool {
    animal_id_text(a) == animal_id_text(b)
}

/// `ArrayString::eq`: compares the two texts.
#[verifier::external_body]
pub fn animal_id_eq(a: &AnimalId, b: &AnimalId) -> (res: bool)
    ensures
        res == same_animal(*a, *b),
{
    a == b
}

/// `ArrayString::from`: the id holding the text `s`; none when the UTF-8
/// bytes of `s` do not fit in twenty bytes.
#[verifier::external_body]
pub fn animal_id_from_str(s: &str) -> (res: Option<AnimalId>)
    ensures
        match res {
            Some(id) => s.spec_bytes().len() <= 20 && animal_id_text(id) == s@,
            None => s.spec_bytes().len() > 20,
        },
{
    arrayvec::ArrayString::from(s).ok()
}

/// `ArrayString::as_str`: the text of the id.
#[verifier::external_body]
pub fn animal_id_as_str(id: &AnimalId) -> (res: &str)
    ensures
        res@ == animal_id_text(*id),
{
    id.as_str()
}

} // verus!

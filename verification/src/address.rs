//! Email address shared across all protocols.
use vstd::prelude::*;

verus! {

/// A single email address with an optional display name.
#[derive(Debug)]
pub struct Address {
    /// Display name (e.g. `Alice`), if any.
    pub name: Option<String>,
    /// Email address (e.g. `alice@example.org`).
    pub email: String,
}

/// What an [`Address`] says.
pub struct AddressView {
    pub name: Option<Seq<char>>,
    pub email: Seq<char>,
}

impl DeepView for Address {
    type V = AddressView;

    open spec fn deep_view(&self) -> AddressView {
        AddressView { name: self.name.deep_view(), email: self.email@ }
    }
}

impl Address {
    pub fn new(email: String) -> (r: Address)
        ensures
            r.deep_view() == (AddressView { name: None, email: email@ }),
    {
        Address { name: None, email }
    }

    pub fn with_name(self, name: String) -> (r: Address)
        ensures
            r.deep_view() == (AddressView { name: Some(name@), ..self.deep_view() }),
    {
        Address { name: Some(name), email: self.email }
    }
}

impl Clone for Address {
    fn clone(&self) -> (r: Address)
        ensures
            r.deep_view() == self.deep_view(),
    {
        let name = match &self.name {
            Some(name) => Some(name.clone()),
            None => None,
        };
        Address { name, email: self.email.clone() }
    }
}

/// A second copy of a list of addresses.
pub fn clone_addresses(list: &Vec<Address>) -> (r: Vec<Address>)
    ensures
        r.deep_view() == list.deep_view(),
{
    let mut out: Vec<Address> = Vec::new();
    let mut i: usize = 0;
    while i < list.len()
        invariant
            i <= list@.len(),
            out@.len() == i,
            forall|j: int| 0 <= j < i ==> out@[j].deep_view() == list@[j].deep_view(),
        decreases list@.len() - i,
    {
        out.push(list[i].clone());
        i = i + 1;
    }
    proof {
        assert(out.deep_view() =~= list.deep_view());
    }
    out
}

} // verus!

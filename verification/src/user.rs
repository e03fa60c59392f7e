//! The account that owns ledger rows. Every category, item version and
//! snapshot carries the owner's lower-cased username, and the clock keeps one
//! counter per owner.

use vstd::prelude::*;
use vstd::string::StringExecFns;

verus! {

#[derive(Debug, Clone)]
pub struct User {
    pub username: String,
    pub username_lower: String,
    pub firstname: String,
    pub lastname: String,
    pub is_deleted: bool,
}

impl User {
    /// First and last name joined by a single space.
    pub fn fullname(&self) -> (r: String)
        ensures
            r@ == self.firstname@ + " "@ + self.lastname@,
    {
        let mut r = self.firstname.clone();
        r.append(" ");
        r.append(self.lastname.as_str());
        r
    }
}

} // verus!

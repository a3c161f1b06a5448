//! A category of identifiable objects, named by a short prefix.

use vstd::prelude::*;

use crate::error::IdError;

verus! {

/// Whether `c` is an ASCII letter or digit.
pub open spec fn is_ascii_alnum(c: char) -> bool {
    let u = c as int;
    (48 <= u && u <= 57) || (65 <= u && u <= 90) || (97 <= u && u <= 122)
}

/// Equality of two characters up to ASCII case: equal outright, or the
/// same letter in the two cases.
pub open spec fn ascii_eq_ignore_case(a: char, b: char) -> bool {
    ||| a == b
    ||| (65 <= a as int && a as int <= 90 && b as int == a as int + 32)
    ||| (97 <= a as int && a as int <= 122 && b as int == a as int - 32)
}

/// Whether `prefix` matches the start of `s`, character by character,
/// up to ASCII case.
pub open spec fn case_prefix_matches(prefix: Seq<char>, s: Seq<char>) -> bool {
    &&& prefix.len() <= s.len()
    &&& forall|i: int|
        0 <= i < prefix.len() ==> #[trigger] ascii_eq_ignore_case(prefix[i], s[i])
}

/// What stripping `prefix` and the underscore separator from `s` yields:
/// `WrongClass` when the prefix does not match, `InvalidFormat` when the
/// separator is missing, otherwise the remainder after both.
pub open spec fn spec_strip_prefix(prefix: Seq<char>, s: Seq<char>) -> Result<Seq<char>, IdError> {
    if !case_prefix_matches(prefix, s) {
        Err(IdError::WrongClass)
    } else if s.len() == prefix.len() || s[prefix.len() as int] != '_' {
        Err(IdError::InvalidFormat)
    } else {
        Ok(s.subrange(prefix.len() as int + 1, s.len() as int))
    }
}

/// A category of identifiable objects.
///
/// All instances should be created once, at startup, through [`IdClass::new`],
/// which demands a non-empty ASCII-alphanumeric prefix. Don't use the same
/// class for two identifiable types; map the class to the most natural one.
#[derive(Debug, Clone, Copy)]
pub struct IdClass {
    prefix: &'static str,
}

impl IdClass {
    /// The registered prefix, as contracts see it.
    pub closed spec fn spec_prefix(self) -> Seq<char> {
        self.prefix@
    }

    /// The class invariant: the prefix is non-empty and every character
    /// is an ASCII letter or digit.
    pub open spec fn wf(self) -> bool {
        &&& self.spec_prefix().len() > 0
        &&& forall|i: int|
            0 <= i < self.spec_prefix().len() ==> is_ascii_alnum(#[trigger] self.spec_prefix()[i])
    }

    /// Create a new valid class. A malformed prefix is a programming
    /// error, not a runtime condition, so the precondition demands a
    /// non-empty ASCII-alphanumeric prefix outright.
    pub fn new(prefix: &'static str) -> (c: IdClass)
        requires
            prefix@.len() > 0,
            forall|i: int| 0 <= i < prefix@.len() ==> is_ascii_alnum(#[trigger] prefix@[i]),
        ensures
            c.spec_prefix() == prefix@,
            c.wf(),
    {
        IdClass { prefix }
    }

    /// The registered prefix.
    pub fn prefix(self) -> (p: &'static str)
        ensures
            p@ == self.spec_prefix(),
    {
        self.prefix
    }

    /// Remove the prefix and underscore separator from a public id,
    /// yielding the database form of the value.
    ///
    /// Fails with `WrongClass` if the text does not start with this
    /// class's prefix (ASCII-case-insensitively), and with
    /// `InvalidFormat` if the underscore after the prefix is missing.
    /// No check is made of the remainder; that is the parser's job.
    pub fn strip_prefix<'a>(self, public_id: &'a str) -> (r: Result<&'a str, IdError>)
        ensures
            r is Ok <==> spec_strip_prefix(self.spec_prefix(), public_id@) is Ok,
            r is Ok ==> r->Ok_0@ == spec_strip_prefix(self.spec_prefix(), public_id@)->Ok_0,
            r is Err ==> r->Err_0 == spec_strip_prefix(self.spec_prefix(), public_id@)->Err_0,
    {
        let prefix = self.prefix;
        let plen = prefix.unicode_len();
        let slen = public_id.unicode_len();
        if slen < plen {
            return Err(IdError::WrongClass);
        }
        let mut i: usize = 0;
        while i < plen
            invariant
                i <= plen,
                plen <= slen,
                plen == self.spec_prefix().len(),
                prefix@ == self.spec_prefix(),
                slen == public_id@.len(),
                forall|j: int|
                    0 <= j < i ==> #[trigger] ascii_eq_ignore_case(
                        self.spec_prefix()[j],
                        public_id@[j],
                    ),
            decreases plen - i,
        {
            let pc = prefix.get_char(i);
            let sc = public_id.get_char(i);
            if !char_eq_ignore_case(pc, sc) {
                proof {
                    assert(!ascii_eq_ignore_case(self.spec_prefix()[i as int], public_id@[i as int]));
                }
                return Err(IdError::WrongClass);
            }
            i = i + 1;
        }
        if slen == plen {
            return Err(IdError::InvalidFormat);
        }
        let sep = public_id.get_char(plen);
        if sep != '_' {
            return Err(IdError::InvalidFormat);
        }
        Ok(public_id.substring_char(plen + 1, slen))
    }
}

/// Compares two characters up to ASCII case.
fn char_eq_ignore_case(a: char, b: char) -> (r: bool)
    ensures
        r == ascii_eq_ignore_case(a, b),
{
    let ua = a as u32;
    let ub = b as u32;
    ua == ub || (65 <= ua && ua <= 90 && ub == ua + 32) || (97 <= ua && ua <= 122 && ub + 32 == ua)
}

} // verus!

use vstd::prelude::*;
use vstd::string::StrSliceExecFns;
use crate::error::NameError;

verus! {

/// Characters a patch name may not hold: control characters, whitespace and
/// the characters that revision and range syntax give a meaning to.
pub open spec fn forbidden_char(c: char) -> bool {
    control_or_space(c as u32) || c == '~' || c == '^' || c == ':' || c == '?' || c == '*' || c
        == '[' || c == '\\' || c == '{' || c == '}'
}

/// Control characters (C0, DEL and C1) and the Unicode white space characters.
pub open spec fn control_or_space(u: u32) -> bool {
    u <= 0x20 || (0x7f <= u <= 0xa0) || u == 0x1680 || (0x2000 <= u <= 0x200a) || u == 0x2028
        || u == 0x2029 || u == 0x202f || u == 0x205f || u == 0x3000
}

pub open spec fn has_forbidden_char(s: Seq<char>) -> bool {
    exists|i: int| 0 <= i < s.len() && forbidden_char(#[trigger] s[i])
}

pub open spec fn has_double_dot(s: Seq<char>) -> bool {
    exists|i: int| 0 <= i < s.len() - 1 && #[trigger] s[i] == '.' && s[i + 1] == '.'
}

/// A valid patch name: non-empty, no forbidden character, no dot at either
/// end and no two dots in a row (which would read as a range).
pub open spec fn valid_patch_name(s: Seq<char>) -> bool {
    &&& s.len() > 0
    &&& !has_forbidden_char(s)
    &&& s[0] != '.'
    &&& s[s.len() - 1] != '.'
    &&& !has_double_dot(s)
}

/// The error reported for an invalid name: the first rule it breaks, in the
/// order in which the rules are listed in `valid_patch_name`.
pub open spec fn name_error(s: Seq<char>) -> NameError {
    if s.len() == 0 {
        NameError::Empty
    } else if has_forbidden_char(s) {
        NameError::InvalidChar
    } else if s[0] == '.' {
        NameError::LeadingDot
    } else if s[s.len() - 1] == '.' {
        NameError::TrailingDot
    } else {
        NameError::DoubleDot
    }
}

/// A validated patch name. Names are case-sensitive.
#[derive(Debug)]
pub struct PatchName {
    name: String,
}

impl View for PatchName {
    type V = Seq<char>;

    closed spec fn view(&self) -> Seq<char> {
        self.name@
    }
}

impl Clone for PatchName {
    fn clone(&self) -> (r: Self)
        ensures
            r == *self,
    {
        PatchName { name: self.name.clone() }
    }
}

impl PatchName {
    pub closed spec fn wf(&self) -> bool {
        valid_patch_name(self.name@)
    }

    /// Read a patch name from text, rejecting what breaks the naming rules.
    pub fn parse(raw: &str) -> (r: Result<PatchName, NameError>)
        ensures
            r is Ok <==> valid_patch_name(raw@),
            r matches Ok(n) ==> n@ == raw@ && n.wf(),
            r matches Err(e) ==> e == name_error(raw@),
    {
        let n = raw.unicode_len();
        if n == 0 {
            return Err(NameError::Empty);
        }
        let mut i: usize = 0;
        while i < n
            invariant
                n == raw@.len(),
                i <= n,
                forall|j: int| 0 <= j < i ==> !forbidden_char(#[trigger] raw@[j]),
            decreases n - i,
        {
            let c = raw.get_char(i);
            if is_forbidden(c) {
                return Err(NameError::InvalidChar);
            }
            i = i + 1;
        }
        assert(!has_forbidden_char(raw@));
        if raw.get_char(0) == '.' {
            return Err(NameError::LeadingDot);
        }
        if raw.get_char(n - 1) == '.' {
            return Err(NameError::TrailingDot);
        }
        let mut k: usize = 0;
        while k + 1 < n
            invariant
                n == raw@.len(),
                n > 0,
                k < n,
                !has_forbidden_char(raw@),
                raw@[0] != '.',
                raw@[n - 1] != '.',
                forall|j: int| 0 <= j < k ==> !(#[trigger] raw@[j] == '.' && raw@[j + 1] == '.'),
            decreases n - k,
        {
            if raw.get_char(k) == '.' && raw.get_char(k + 1) == '.' {
                return Err(NameError::DoubleDot);
            }
            k = k + 1;
        }
        Ok(PatchName { name: raw.to_owned() })
    }

    pub fn as_str(&self) -> (r: &str)
        ensures
            r@ == self@,
    {
        self.name.as_str()
    }

    /// The name as an owned string.
    pub fn to_text(&self) -> (r: String)
        ensures
            r@ == self@,
    {
        self.name.clone()
    }

    /// Case-sensitive equality of two names.
    pub fn same_as(&self, other: &PatchName) -> (r: bool)
        ensures
            r == (self@ == other@),
    {
        self.name == other.name
    }
}

fn is_forbidden(c: char) -> (r: bool)
    ensures
        r == forbidden_char(c),
{
    let u = c as u32;
    let special = u <= 0x20 || (0x7f <= u && u <= 0xa0) || u == 0x1680 || (0x2000 <= u && u
        <= 0x200a) || u == 0x2028 || u == 0x2029 || u == 0x202f || u == 0x205f || u == 0x3000;
    special || c == '~' || c == '^' || c == ':' || c == '?' || c == '*' || c == '[' || c == '\\'
        || c == '{' || c == '}'
}

} // verus!

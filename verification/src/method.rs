//! The choice among the three pairing functions, made once for a whole call.

use vstd::prelude::*;
use crate::error::PairingError;
use crate::pairing::{
    cantor_pair, cantor_unpair, compute_cantor_pair, compute_cantor_unpair, compute_hagen_pair,
    compute_hagen_unpair, compute_szudzik_pair, compute_szudzik_unpair, hagen_pair, hagen_unpair,
    lemma_cantor_code_fits, lemma_cantor_unpair_pair, lemma_hagen_code_fits,
    lemma_hagen_unpair_pair, lemma_szudzik_code_fits, lemma_szudzik_unpair_pair, szudzik_pair,
    szudzik_unpair,
};

verus! {

/// A pairing function.
#[derive(Clone, Copy, Debug, PartialEq, Eq, Structural)]
pub enum Method {
    Hagen,
    Szudzik,
    Cantor,
}

/// The lower-case form of an ASCII capital letter; any other character itself.
pub open spec fn ascii_lower(c: char) -> char {
    if 'A' <= c <= 'Z' {
        ((c as u8) + 32) as char
    } else {
        c
    }
}

/// `s` with each ASCII capital letter in lower case.
pub open spec fn ascii_lowercase(s: Seq<char>) -> Seq<char> {
    Seq::new(s.len(), |i: int| ascii_lower(s[i]))
}

/// The method that `name` stands for, whatever the case of its letters.
pub open spec fn method_of_name(name: Seq<char>) -> Option<Method> {
    let lower = ascii_lowercase(name);
    if lower == "hagen"@ {
        Some(Method::Hagen)
    } else if lower == "szudzik"@ {
        Some(Method::Szudzik)
    } else if lower == "cantor"@ {
        Some(Method::Cantor)
    } else {
        None
    }
}

/// The lower-case form of an ASCII capital letter; any other character itself.
fn to_ascii_lower(c: char) -> (lower: char)
    ensures
        lower == ascii_lower(c),
{
    if 'A' <= c && c <= 'Z' {
        ((c as u8) + 32) as char
    } else {
        c
    }
}

/// Whether `name`, in lower case, is `target`.
fn is_name(name: &str, target: &str) -> (same: bool)
    ensures
        same == (ascii_lowercase(name@) == target@),
{
    let n = name.unicode_len();
    if n != target.unicode_len() {
        return false;
    }
    let mut i: usize = 0;
    while i < n
        invariant
            i <= n,
            n == name@.len(),
            n == target@.len(),
            forall|j: int| 0 <= j < i ==> ascii_lower(name@[j]) == target@[j],
        decreases n - i,
    {
        if to_ascii_lower(name.get_char(i)) != target.get_char(i) {
            return false;
        }
        i += 1;
    }
    assert(ascii_lowercase(name@) =~= target@);
    true
}

impl Method {
    /// The method that `name` stands for, whatever the case of its letters.
    pub fn from_name(name: &str) -> (method: Result<Method, PairingError>)
        ensures
            method == match method_of_name(name@) {
                Some(m) => Ok::<Method, PairingError>(m),
                None => Err(PairingError::UnsupportedMethod),
            },
    {
        if is_name(name, "hagen") {
            Ok(Method::Hagen)
        } else if is_name(name, "szudzik") {
            Ok(Method::Szudzik)
        } else if is_name(name, "cantor") {
            Ok(Method::Cantor)
        } else {
            Err(PairingError::UnsupportedMethod)
        }
    }

    /// The code of `(l, r)` in 64-bit arithmetic.
    pub open spec fn spec_pair(self, l: u64, r: u64) -> u64 {
        match self {
            Method::Hagen => hagen_pair(l, r),
            Method::Szudzik => szudzik_pair(l, r),
            Method::Cantor => cantor_pair(l, r),
        }
    }

    /// The pair of the code `p` in 64-bit arithmetic.
    pub open spec fn spec_unpair(self, p: u64) -> (u64, u64) {
        match self {
            Method::Hagen => hagen_unpair(p),
            Method::Szudzik => szudzik_unpair(p),
            Method::Cantor => cantor_unpair(p),
        }
    }

    /// Encodes `(l, r)`.
    pub fn pair(self, l: u64, r: u64) -> (code: Option<u64>)
        ensures
            code == Some(self.spec_pair(l, r)),
    {
        match self {
            Method::Hagen => compute_hagen_pair(l, r),
            Method::Szudzik => compute_szudzik_pair(l, r),
            Method::Cantor => compute_cantor_pair(l, r),
        }
    }

    /// Decodes `p`.
    pub fn unpair(self, p: u64) -> (pair: Option<(u64, u64)>)
        ensures
            pair == Some(self.spec_unpair(p)),
    {
        match self {
            Method::Hagen => compute_hagen_unpair(p),
            Method::Szudzik => compute_szudzik_unpair(p),
            Method::Cantor => compute_cantor_unpair(p),
        }
    }
}

/// Round trip: by every method, decoding the code of a pair of numbers below
/// `2¹⁶` gives the pair back.
pub proof fn lemma_round_trip(method: Method, l: u64, r: u64)
    requires
        l < 0x1_0000,
        r < 0x1_0000,
    ensures
        method.spec_unpair(method.spec_pair(l, r)) == (l, r),
{
    match method {
        Method::Hagen => {
            lemma_hagen_code_fits(l, r);
            lemma_hagen_unpair_pair(l, r);
        },
        Method::Szudzik => {
            lemma_szudzik_code_fits(l, r);
            lemma_szudzik_unpair_pair(l, r);
        },
        Method::Cantor => {
            lemma_cantor_code_fits(l, r);
            lemma_cantor_unpair_pair(l, r);
        },
    }
}

/// The three names are in lower case already and differ from one another.
pub proof fn lemma_names_are_distinct()
    ensures
        method_of_name("hagen"@) == Some(Method::Hagen),
        method_of_name("szudzik"@) == Some(Method::Szudzik),
        method_of_name("cantor"@) == Some(Method::Cantor),
{
    reveal_strlit("hagen");
    reveal_strlit("szudzik");
    reveal_strlit("cantor");
    assert(ascii_lowercase("hagen"@) =~= "hagen"@);
    assert(ascii_lowercase("szudzik"@) =~= "szudzik"@);
    assert(ascii_lowercase("cantor"@) =~= "cantor"@);
}

} // verus!

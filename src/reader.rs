//! Reading a type descriptor from its textual form: an elementary name
//! (`address`, `bytes`, `bool`, `string`, `int`, `uint`, `tuple`, `int<N>`,
//! `uint<N>`, `bytes<N>`), followed by any number of `[]` or `[N]` suffixes.

use vstd::prelude::*;
use crate::param_type::{models_of, ParamType, TypeModel};

verus! {

pub open spec fn is_digit(c: char) -> bool {
    '0' <= c && c <= '9'
}

/// The decimal value of a string of digits.
pub open spec fn digits_value(s: Seq<char>) -> nat
    decreases s.len(),
{
    if s.len() == 0 {
        0
    } else {
        digits_value(s.drop_last()) * 10 + (s.last() as nat - '0' as nat) as nat
    }
}

/// A decimal number without sign that fits in `usize`.
pub open spec fn spec_number(s: Seq<char>) -> Option<usize> {
    if s.len() > 0 && (forall|i: int| 0 <= i < s.len() ==> is_digit(#[trigger] s[i]))
        && digits_value(s) <= usize::MAX {
        Some(digits_value(s) as usize)
    } else {
        None
    }
}

/// `s` begins with `p`.
pub open spec fn has_prefix(s: Seq<char>, p: Seq<char>) -> bool {
    p.len() <= s.len() && s.subrange(0, p.len() as int) == p
}

/// A sized elementary name: `prefix` followed by a number.
pub open spec fn sized(s: Seq<char>, prefix: Seq<char>) -> Option<usize> {
    spec_number(s.subrange(prefix.len() as int, s.len() as int))
}

/// The elementary type that `s` names, if any.
pub open spec fn spec_elementary(s: Seq<char>) -> Option<TypeModel> {
    if s == "address"@ {
        Some(TypeModel::Address)
    } else if s == "bytes"@ {
        Some(TypeModel::Bytes)
    } else if s == "bool"@ {
        Some(TypeModel::Bool)
    } else if s == "string"@ {
        Some(TypeModel::String)
    } else if s == "int"@ {
        Some(TypeModel::Int(256))
    } else if s == "tuple"@ {
        Some(TypeModel::Tuple(Seq::empty()))
    } else if s == "uint"@ {
        Some(TypeModel::Uint(256))
    } else if has_prefix(s, "int"@) {
        match sized(s, "int"@) {
            Some(n) => Some(TypeModel::Int(n)),
            None => None,
        }
    } else if has_prefix(s, "uint"@) {
        match sized(s, "uint"@) {
            Some(n) => Some(TypeModel::Uint(n)),
            None => None,
        }
    } else if has_prefix(s, "bytes"@) {
        match sized(s, "bytes"@) {
            Some(n) => Some(TypeModel::FixedBytes(n)),
            None => None,
        }
    } else {
        None
    }
}

/// The position of the last `[` before `end`, or -1 where there is none.
pub open spec fn last_open_before(s: Seq<char>, end: int) -> int
    decreases end,
{
    if end <= 0 {
        -1
    } else if s[end - 1] == '[' {
        end - 1
    } else {
        last_open_before(s, end - 1)
    }
}

/// The type that `s` denotes. A trailing `[]` makes an array of what stands
/// before it, a trailing `[N]` a fixed array of size `N`.
pub open spec fn spec_read(s: Seq<char>) -> Option<TypeModel>
    decreases s.len(),
{
    if s.len() > 0 && s.last() == ']' {
        let open = last_open_before(s, s.len() - 1);
        if open < 0 || open >= s.len() - 1 {
            None
        } else {
            let size = s.subrange(open + 1, s.len() - 1);
            match spec_read(s.subrange(0, open)) {
                None => None,
                Some(inner) => if size.len() == 0 {
                    Some(TypeModel::Array(Box::new(inner)))
                } else {
                    match spec_number(size) {
                        Some(n) => Some(TypeModel::FixedArray(Box::new(inner), n)),
                        None => None,
                    }
                },
            }
        }
    } else {
        spec_elementary(s)
    }
}

pub open spec fn opt_model(t: Option<ParamType>) -> Option<TypeModel> {
    match t {
        Some(t) => Some(t.model()),
        None => None,
    }
}

proof fn lemma_prefix_value_le(s: Seq<char>, k: int)
    requires
        0 <= k <= s.len(),
    ensures
        digits_value(s.subrange(0, k)) <= digits_value(s),
    decreases s.len(),
{
    if k < s.len() {
        lemma_prefix_value_le(s.drop_last(), k);
        assert(s.drop_last().subrange(0, k) =~= s.subrange(0, k));
    } else {
        assert(s.subrange(0, k) =~= s);
    }
}

/// The number that `s` spells in decimal, if it spells one that fits.
fn parse_number(s: &str) -> (r: Option<usize>)
    ensures
        r == spec_number(s@),
{
    let n = s.unicode_len();
    if n == 0 {
        return None;
    }
    let mut v: usize = 0;
    let mut i: usize = 0;
    while i < n
        invariant
            n == s@.len(),
            i <= n,
            forall|j: int| 0 <= j < i ==> is_digit(#[trigger] s@[j]),
            v == digits_value(s@.subrange(0, i as int)),
        decreases n - i,
    {
        let c = s.get_char(i);
        if !('0' <= c && c <= '9') {
            return None;
        }
        let d = (c as u32 - '0' as u32) as usize;
        assert(s@.subrange(0, i + 1).drop_last() =~= s@.subrange(0, i as int));
        if v > (usize::MAX - d) / 10 {
            proof {
                lemma_prefix_value_le(s@, i + 1);
            }
            return None;
        }
        v = v * 10 + d;
        i = i + 1;
    }
    assert(s@.subrange(0, n as int) =~= s@);
    Some(v)
}

/// Whether two strings hold the same characters.
fn same_text(a: &str, b: &str) -> (r: bool)
    ensures
        r == (a@ == b@),
{
    let n = a.unicode_len();
    if n != b.unicode_len() {
        return false;
    }
    let mut i: usize = 0;
    while i < n
        invariant
            n == a@.len(),
            n == b@.len(),
            i <= n,
            a@.subrange(0, i as int) == b@.subrange(0, i as int),
        decreases n - i,
    {
        if a.get_char(i) != b.get_char(i) {
            return false;
        }
        assert(a@.subrange(0, i + 1) =~= a@.subrange(0, i as int).push(a@[i as int]));
        assert(b@.subrange(0, i + 1) =~= b@.subrange(0, i as int).push(b@[i as int]));
        i = i + 1;
    }
    assert(a@ =~= a@.subrange(0, n as int));
    assert(b@ =~= b@.subrange(0, n as int));
    true
}

/// Whether `s` begins with `p`.
fn starts_with(s: &str, p: &str) -> (r: bool)
    ensures
        r == has_prefix(s@, p@),
{
    let n = s.unicode_len();
    let m = p.unicode_len();
    if m > n {
        return false;
    }
    same_text(s.substring_char(0, m), p)
}

/// The number after `prefix` in a sized elementary name.
fn read_size(s: &str, prefix: &str) -> (r: Option<usize>)
    requires
        has_prefix(s@, prefix@),
    ensures
        r == sized(s@, prefix@),
{
    let n = s.unicode_len();
    let m = prefix.unicode_len();
    parse_number(s.substring_char(m, n))
}

fn read_elementary(s: &str) -> (r: Option<ParamType>)
    ensures
        opt_model(r) == spec_elementary(s@),
{
    if same_text(s, "address") {
        Some(ParamType::Address)
    } else if same_text(s, "bytes") {
        Some(ParamType::Bytes)
    } else if same_text(s, "bool") {
        Some(ParamType::Bool)
    } else if same_text(s, "string") {
        Some(ParamType::String)
    } else if same_text(s, "int") {
        Some(ParamType::Int(256))
    } else if same_text(s, "tuple") {
        let r = ParamType::Tuple(Vec::new());
        assert(models_of(Seq::empty()) =~= Seq::empty());
        Some(r)
    } else if same_text(s, "uint") {
        Some(ParamType::Uint(256))
    } else if starts_with(s, "int") {
        match read_size(s, "int") {
            Some(n) => Some(ParamType::Int(n)),
            None => None,
        }
    } else if starts_with(s, "uint") {
        match read_size(s, "uint") {
            Some(n) => Some(ParamType::Uint(n)),
            None => None,
        }
    } else if starts_with(s, "bytes") {
        match read_size(s, "bytes") {
            Some(n) => Some(ParamType::FixedBytes(n)),
            None => None,
        }
    } else {
        None
    }
}

/// Reads a type descriptor from its textual form. Returns `None` where `s`
/// names no type.
pub fn read_param_type(s: &str) -> (r: Option<ParamType>)
    ensures
        opt_model(r) == spec_read(s@),
    decreases s@.len(),
{
    let n = s.unicode_len();
    if n > 0 && s.get_char(n - 1) == ']' {
        let mut j: usize = n - 1;
        while j > 0 && s.get_char(j - 1) != '['
            invariant
                n == s@.len(),
                j <= n - 1,
                last_open_before(s@, n - 1) == last_open_before(s@, j as int),
            decreases j,
        {
            j = j - 1;
        }
        if j == 0 {
            return None;
        }
        let open = j - 1;
        let inner = read_param_type(s.substring_char(0, open));
        match inner {
            None => None,
            Some(inner) => {
                if open + 1 == n - 1 {
                    Some(ParamType::Array(Box::new(inner)))
                } else {
                    match parse_number(s.substring_char(open + 1, n - 1)) {
                        Some(size) => Some(ParamType::FixedArray(Box::new(inner), size)),
                        None => None,
                    }
                }
            },
        }
    } else {
        read_elementary(s)
    }
}

} // verus!

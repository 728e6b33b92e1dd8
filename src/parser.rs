//! Reads the fields of a `upi://pay` request: the payee address after the
//! first `pa=` that has a value, then, where they follow in this order,
//! `&pn=`, `&am=` and `&cu=`. A value runs to the next `&` or to the end.
use vstd::prelude::*;
use vstd::string::{StrSliceExecFns, StringExecFns};
use crate::domain::{UpiIntent, UpiModel};
use crate::error::VaultError;

verus! {

/// Whether `lit` occurs in `s` at position `i`.
pub open spec fn occurs_at(s: Seq<char>, i: int, lit: Seq<char>) -> bool {
    0 <= i && i + lit.len() <= s.len() && s.subrange(i, i + lit.len()) == lit
}

/// The end of the value that starts at `from`: the first `&` at or after
/// it, or the end of the text.
pub open spec fn value_end(s: Seq<char>, from: int) -> int
    decreases s.len() - from,
{
    if from < 0 || from >= s.len() {
        s.len() as int
    } else if s[from] == '&' {
        from
    } else {
        value_end(s, from + 1)
    }
}

/// Whether `tag` occurs at `pos` and is followed by a value of at least
/// one character.
pub open spec fn tag_with_value(s: Seq<char>, pos: int, tag: Seq<char>) -> bool {
    occurs_at(s, pos, tag) && pos + tag.len() < s.len() && s[pos + tag.len()] != '&'
}

/// The first position from `i` on where the payee field starts.
pub open spec fn find_payee(s: Seq<char>, i: int) -> Option<int>
    decreases s.len() - i,
{
    if i < 0 || i >= s.len() {
        None
    } else if tag_with_value(s, i, seq!['p', 'a', '=']) {
        Some(i)
    } else {
        find_payee(s, i + 1)
    }
}

/// The optional field `tag` at `pos`: its value and where it ends, or
/// `None` when it is not there.
pub open spec fn optional_field(s: Seq<char>, pos: int, tag: Seq<char>) -> Option<(Seq<char>, int)> {
    if tag_with_value(s, pos, tag) {
        let e = value_end(s, pos + tag.len());
        Some((s.subrange(pos + tag.len(), e), e))
    } else {
        None
    }
}

/// The fields of a payment request, or `None` when the text is not one.
pub open spec fn parse_upi(s: Seq<char>) -> Option<UpiModel> {
    if !occurs_at(s, 0, seq!['u', 'p', 'i', ':', '/', '/', 'p', 'a', 'y']) {
        None
    } else {
        match find_payee(s, 0) {
            None => None,
            Some(i) => {
                let e0 = value_end(s, i + 3);
                let (name, e1) = match optional_field(s, e0, seq!['&', 'p', 'n', '=']) {
                    Some((v, e)) => (v, e),
                    None => (Seq::<char>::empty(), e0),
                };
                let (amount, e2) = match optional_field(s, e1, seq!['&', 'a', 'm', '=']) {
                    Some((v, e)) => (v, e),
                    None => (Seq::<char>::empty(), e1),
                };
                let currency = match optional_field(s, e2, seq!['&', 'c', 'u', '=']) {
                    Some((v, e)) => v,
                    None => seq!['I', 'N', 'R'],
                };
                Some(UpiModel { vpa: s.subrange(i + 3, e0), name, amount, currency })
            },
        }
    }
}

fn occurs_at_exec(cs: &Vec<char>, i: usize, lit: &Vec<char>) -> (r: bool)
    ensures
        r == occurs_at(cs@, i as int, lit@),
{
    if i > cs.len() || cs.len() - i < lit.len() {
        return false;
    }
    let len = cs.len();
    let mut k: usize = 0;
    while k < lit.len()
        invariant
            len == cs@.len(),
            i + lit@.len() <= cs@.len(),
            k <= lit@.len(),
            forall|j: int| 0 <= j < k ==> cs@[i + j] == lit@[j],
        decreases lit@.len() - k,
    {
        if cs[i + k] != lit[k] {
            assert(cs@.subrange(i as int, i + lit@.len())[k as int] != lit@[k as int]);
            return false;
        }
        k = k + 1;
    }
    assert(cs@.subrange(i as int, i + lit@.len()) =~= lit@);
    true
}

fn value_end_exec(cs: &Vec<char>, from: usize) -> (r: usize)
    requires
        from <= cs@.len(),
    ensures
        r == value_end(cs@, from as int),
        from <= r <= cs@.len(),
{
    let mut i = from;
    while i < cs.len()
        invariant
            from <= i <= cs@.len(),
            value_end(cs@, from as int) == value_end(cs@, i as int),
        decreases cs@.len() - i,
    {
        if cs[i] == '&' {
            return i;
        }
        i = i + 1;
    }
    i
}

fn tag_with_value_exec(cs: &Vec<char>, pos: usize, tag: &Vec<char>) -> (r: bool)
    ensures
        r == tag_with_value(cs@, pos as int, tag@),
{
    let len = cs.len();
    occurs_at_exec(cs, pos, tag) && pos + tag.len() < len && cs[pos + tag.len()] != '&'
}

/// The characters of `s` between two positions, as a new string.
fn slice_text(s: &str, cs: &Vec<char>, from: usize, to: usize) -> (r: String)
    requires
        cs@ == s@,
        from <= to <= cs@.len(),
    ensures
        r@ == s@.subrange(from as int, to as int),
{
    String::from_str(s.substring_char(from, to))
}

fn optional_field_exec(s: &str, cs: &Vec<char>, pos: usize, tag: &Vec<char>) -> (r: Option<(String, usize)>)
    requires
        cs@ == s@,
        pos <= cs@.len(),
    ensures
        match r {
            Some((v, e)) => optional_field(cs@, pos as int, tag@) == Some((v@, e as int)) && pos <= e
                <= cs@.len(),
            None => optional_field(cs@, pos as int, tag@) is None,
        },
{
    let len = cs.len();
    if tag_with_value_exec(cs, pos, tag) {
        let start = pos + tag.len();
        let e = value_end_exec(cs, start);
        Some((slice_text(s, cs, start, e), e))
    } else {
        None
    }
}

/// Parses the fields of a `upi://pay` request. A missing name or amount is
/// empty, and a missing currency is INR.
pub fn parse_upi_url(url: &str) -> (r: Result<UpiIntent, VaultError>)
    ensures
        match parse_upi(url@) {
            Some(m) => r is Ok && r->Ok_0@ == m,
            None => r == Err::<UpiIntent, VaultError>(VaultError::InvalidIntent),
        },
{
    let n = url.unicode_len();
    let mut cs: Vec<char> = Vec::new();
    let mut i: usize = 0;
    while i < n
        invariant
            n == url@.len(),
            i <= n,
            cs@ == url@.subrange(0, i as int),
        decreases n - i,
    {
        cs.push(url.get_char(i));
        i = i + 1;
        assert(cs@ =~= url@.subrange(0, i as int));
    }
    assert(cs@ =~= url@);
    let scheme = vec!['u', 'p', 'i', ':', '/', '/', 'p', 'a', 'y'];
    assert(scheme@ =~= seq!['u', 'p', 'i', ':', '/', '/', 'p', 'a', 'y']);
    if !occurs_at_exec(&cs, 0, &scheme) {
        return Err(VaultError::InvalidIntent);
    }
    let payee_tag = vec!['p', 'a', '='];
    assert(payee_tag@ =~= seq!['p', 'a', '=']);
    let mut p: usize = 0;
    while p < n
        invariant
            cs@ == url@,
            n == url@.len(),
            p <= n,
            payee_tag@ == seq!['p', 'a', '='],
            find_payee(url@, 0) == find_payee(url@, p as int),
        ensures
            p < n ==> tag_with_value(url@, p as int, seq!['p', 'a', '=']) && find_payee(url@, 0) == Some(
                p as int,
            ),
            p >= n ==> find_payee(url@, 0) is None,
        decreases n - p,
    {
        if tag_with_value_exec(&cs, p, &payee_tag) {
            break;
        }
        p = p + 1;
    }
    if p >= n {
        return Err(VaultError::InvalidIntent);
    }
    let e0 = value_end_exec(&cs, p + 3);
    let vpa = slice_text(url, &cs, p + 3, e0);
    let name_tag = vec!['&', 'p', 'n', '='];
    assert(name_tag@ =~= seq!['&', 'p', 'n', '=']);
    let (name, e1) = match optional_field_exec(url, &cs, e0, &name_tag) {
        Some(pair) => pair,
        None => (String::new(), e0),
    };
    let amount_tag = vec!['&', 'a', 'm', '='];
    assert(amount_tag@ =~= seq!['&', 'a', 'm', '=']);
    let (amount, e2) = match optional_field_exec(url, &cs, e1, &amount_tag) {
        Some(pair) => pair,
        None => (String::new(), e1),
    };
    let currency_tag = vec!['&', 'c', 'u', '='];
    assert(currency_tag@ =~= seq!['&', 'c', 'u', '=']);
    let currency = match optional_field_exec(url, &cs, e2, &currency_tag) {
        Some((v, _)) => v,
        None => {
            let default = String::from_str("INR");
            proof {
                reveal_strlit("INR");
            }
            assert(default@ =~= seq!['I', 'N', 'R']);
            default
        },
    };
    Ok(UpiIntent { vpa, name, amount, currency })
}

} // verus!

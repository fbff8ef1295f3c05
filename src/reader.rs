//! The reader of canonical type names such as `uint256[3][]` or `[address,bool]`.
use vstd::prelude::*;
use crate::error::{Error, Fault};
use crate::param_type::{elems, lemma_tuple_view, Kind, ParamType};

verus! {

/// Reads canonical type names.
pub struct Reader;

/// Opens a nested group: `[` or `{`.
pub open spec fn is_open(c: char) -> bool {
    c == '[' || c == '{'
}

/// Closes a nested group: `]` or `}`.
pub open spec fn is_close(c: char) -> bool {
    c == ']' || c == '}'
}

pub open spec fn is_digit(c: char) -> bool {
    '0' <= c && c <= '9'
}

pub open spec fn all_digits(s: Seq<char>) -> bool {
    forall|i: int| 0 <= i < s.len() ==> is_digit(#[trigger] s[i])
}

/// The number that a string of decimal digits writes.
pub open spec fn digits_value(s: Seq<char>) -> nat
    decreases s.len(),
{
    if s.len() == 0 {
        0
    } else {
        digits_value(s.drop_last()) * 10 + (s.last() as int - '0' as int) as nat
    }
}

/// The digits of an unsigned decimal, once an optional leading `+` is dropped.
pub open spec fn unsigned_digits(s: Seq<char>) -> Seq<char> {
    if s.len() > 1 && s[0] == '+' {
        s.drop_first()
    } else {
        s
    }
}

/// The `usize` that `s` writes in decimal, if any: an optional `+`, then at
/// least one digit, and a value that fits in `usize`.
pub open spec fn decimal(s: Seq<char>) -> Option<nat> {
    let d = unsigned_digits(s);
    if d.len() > 0 && all_digits(d) && digits_value(d) <= usize::MAX {
        Some(digits_value(d))
    } else {
        None
    }
}

pub open spec fn starts_with(s: Seq<char>, w: Seq<char>) -> bool {
    w.len() <= s.len() && s.subrange(0, w.len() as int) == w
}

/// Whether `s` is a tuple written in one pair of matching brackets or braces.
pub open spec fn is_grouped(s: Seq<char>) -> bool {
    s.len() > 0 && ((s[0] == '[' && s.last() == ']') || (s[0] == '{' && s.last() == '}'))
}

/// The last index below `k` that holds `[`, or -1.
pub open spec fn find_open(s: Seq<char>, k: int) -> int
    decreases k,
{
    if k <= 0 {
        -1
    } else if s[k - 1] == '[' {
        k - 1
    } else {
        find_open(s, k - 1)
    }
}

/// The type that a keyword or a keyword with a numeric suffix names.
pub open spec fn parse_scalar(s: Seq<char>) -> Result<Kind, Fault> {
    if s == "address"@ {
        Ok(Kind::Address)
    } else if s == "bytes"@ {
        Ok(Kind::Bytes)
    } else if s == "bool"@ {
        Ok(Kind::Bool)
    } else if s == "string"@ {
        Ok(Kind::String)
    } else if s == "int"@ {
        Ok(Kind::Int(256))
    } else if s == "tuple"@ {
        Ok(Kind::Tuple(seq![]))
    } else if s == "uint"@ {
        Ok(Kind::Uint(256))
    } else if starts_with(s, "int"@) {
        match decimal(s.skip(3)) {
            Some(n) => Ok(Kind::Int(n)),
            None => Err(Fault::InvalidNumber),
        }
    } else if starts_with(s, "uint"@) {
        match decimal(s.skip(4)) {
            Some(n) => Ok(Kind::Uint(n)),
            None => Err(Fault::InvalidNumber),
        }
    } else if starts_with(s, "bytes"@) {
        match decimal(s.skip(5)) {
            Some(n) => Ok(Kind::FixedBytes(n)),
            None => Err(Fault::InvalidNumber),
        }
    } else {
        Err(Fault::InvalidName(s))
    }
}

/// The type that a canonical type name denotes, or why it denotes none.
pub open spec fn parse(s: Seq<char>) -> Result<Kind, Fault>
    decreases s.len(), 1int, 0int,
{
    if is_grouped(s) {
        scan(s, 0, 0, 1, seq![])
    } else if s.len() > 0 && s.last() == ']' {
        let j = find_open(s, s.len() - 1);
        if 0 <= j < s.len() {
            let num = s.subrange(j + 1, s.len() - 1);
            if num.len() == 0 {
                match parse(s.subrange(0, j)) {
                    Ok(k) => Ok(Kind::Array(Box::new(k))),
                    Err(e) => Err(e),
                }
            } else {
                match decimal(num) {
                    None => Err(Fault::InvalidNumber),
                    Some(n) => match parse(s.subrange(0, j)) {
                        Ok(k) => Ok(Kind::FixedArray(Box::new(k), n)),
                        Err(e) => Err(e),
                    },
                }
            }
        } else {
            Err(Fault::InvalidName(s))
        }
    } else {
        parse_scalar(s)
    }
}

/// The rest of the scan of a grouped tuple from position `pos`, with `nested`
/// groups open, the current element starting at `last`, and `acc` read so far.
/// An element ends at a comma on the first level, or where the first level closes.
pub open spec fn scan(s: Seq<char>, pos: int, nested: int, last: int, acc: Seq<Kind>) -> Result<
    Kind,
    Fault,
>
    decreases s.len(), 0int, s.len() - pos,
{
    if !(0 <= pos < s.len()) {
        Ok(Kind::Tuple(acc))
    } else {
        let c = s[pos];
        if is_open(c) {
            scan(s, pos + 1, nested + 1, last, acc)
        } else if is_close(c) && nested - 1 < 0 {
            Err(Fault::InvalidName(s))
        } else if (is_close(c) && nested - 1 == 0) || (c == ',' && nested == 1) {
            if 1 <= last <= pos {
                match parse(s.subrange(last, pos)) {
                    Ok(k) => scan(s, pos + 1, if is_close(c) { 0 } else { 1 }, pos + 1, acc.push(k)),
                    Err(e) => Err(e),
                }
            } else {
                Err(Fault::InvalidName(s))
            }
        } else if is_close(c) {
            scan(s, pos + 1, nested - 1, last, acc)
        } else {
            scan(s, pos + 1, nested, last, acc)
        }
    }
}

/// The view of a read's outcome.
pub open spec fn outcome(r: Result<ParamType, Error>) -> Result<Kind, Fault> {
    match r {
        Ok(t) => Ok(t@),
        Err(e) => Err(e@),
    }
}


/// Whether `s` equals `w`.
pub(crate) fn same_text(s: &str, w: &str) -> (r: bool)
    ensures
        r == (s@ == w@),
{
    let n = s.unicode_len();
    if n != w.unicode_len() {
        return false;
    }
    let mut i: usize = 0;
    while i < n
        invariant
            n == s@.len() == w@.len(),
            0 <= i <= n,
            s@.subrange(0, i as int) == w@.subrange(0, i as int),
        decreases n - i,
    {
        if s.get_char(i) != w.get_char(i) {
            return false;
        }
        assert(s@.subrange(0, i + 1) == s@.subrange(0, i as int).push(s@[i as int]));
        assert(w@.subrange(0, i + 1) == w@.subrange(0, i as int).push(w@[i as int]));
        i = i + 1;
    }
    assert(s@ == s@.subrange(0, n as int));
    assert(w@ == w@.subrange(0, n as int));
    true
}

/// Whether `s` starts with `w`.
fn has_prefix(s: &str, w: &str) -> (r: bool)
    ensures
        r == starts_with(s@, w@),
{
    let n = w.unicode_len();
    if n > s.unicode_len() {
        return false;
    }
    let mut i: usize = 0;
    while i < n
        invariant
            n == w@.len() <= s@.len(),
            0 <= i <= n,
            s@.subrange(0, i as int) == w@.subrange(0, i as int),
        decreases n - i,
    {
        if s.get_char(i) != w.get_char(i) {
            assert(s@.subrange(0, n as int)[i as int] != w@[i as int]);
            return false;
        }
        assert(s@.subrange(0, i + 1) == s@.subrange(0, i as int).push(s@[i as int]));
        assert(w@.subrange(0, i + 1) == w@.subrange(0, i as int).push(w@[i as int]));
        i = i + 1;
    }
    assert(w@ == w@.subrange(0, n as int));
    true
}


proof fn lemma_digits_grow(d: Seq<char>, i: int, j: int)
    requires
        0 <= i <= j <= d.len(),
        all_digits(d.subrange(0, j)),
    ensures
        digits_value(d.subrange(0, i)) <= digits_value(d.subrange(0, j)),
    decreases j - i,
{
    if i < j {
        let p = d.subrange(0, j);
        assert(p.drop_last() == d.subrange(0, j - 1));
        assert(is_digit(p[j - 1]));
        assert(all_digits(d.subrange(0, j - 1))) by {
            assert forall|k: int| 0 <= k < j - 1 implies is_digit(#[trigger] d.subrange(0, j - 1)[k]) by {
                assert(d.subrange(0, j - 1)[k] == p[k]);
            }
        }
        lemma_digits_grow(d, i, j - 1);
    }
}

/// Reads an unsigned decimal as `usize::from_str_radix(s, 10)` does.
fn parse_decimal(s: &str) -> (r: Option<usize>)
    ensures
        decimal(s@) == match r {
            Some(n) => Some(n as nat),
            None => None::<nat>,
        },
{
    let n = s.unicode_len();
    let start: usize = if n > 1 && s.get_char(0) == '+' {
        1
    } else {
        0
    };
    let ghost d = unsigned_digits(s@);
    assert(d == s@.subrange(start as int, n as int));
    if start == n {
        return None;
    }
    let mut value: usize = 0;
    let mut i: usize = start;
    assert(d.subrange(0, 0) == Seq::<char>::empty());
    while i < n
        invariant
            n == s@.len(),
            d == unsigned_digits(s@),
            d == s@.subrange(start as int, n as int),
            start <= i <= n,
            value == digits_value(d.subrange(0, i - start)),
            all_digits(d.subrange(0, i - start)),
        decreases n - i,
    {
        let c = s.get_char(i);
        assert(d[i - start] == c);
        if c < '0' || c > '9' {
            assert(!is_digit(d[i - start]));
            return None;
        }
        let digit = (c as u32 - '0' as u32) as usize;
        let ghost next = d.subrange(0, i - start + 1);
        assert(next.drop_last() == d.subrange(0, i - start));
        assert(next.last() == c);
        assert(all_digits(next)) by {
            assert forall|k: int| 0 <= k < next.len() implies is_digit(#[trigger] next[k]) by {
                if k < next.len() - 1 {
                    assert(next[k] == d.subrange(0, i - start)[k]);
                }
            }
        }
        assert(digits_value(next) == value * 10 + digit);
        if value > (usize::MAX - digit) / 10 {
            proof {
                assert(value * 10 + digit > usize::MAX) by (nonlinear_arith)
                    requires
                        value > (usize::MAX - digit) / 10,
                        digit <= 9,
                ;
                if all_digits(d) {
                    assert(d.subrange(0, d.len() as int) == d);
                    lemma_digits_grow(d, i - start + 1, d.len() as int);
                }
            }
            return None;
        }
        value = value * 10 + digit;
        i = i + 1;
    }
    assert(d.subrange(0, i - start) == d);
    Some(value)
}

impl Reader {
    /// Converts a canonical type name to a parameter type.
    pub fn read(name: &str) -> (r: Result<ParamType, Error>)
        ensures
            outcome(r) == parse(name@),
        decreases name@.len(), 1int,
    {
        let n = name.unicode_len();
        if n > 0 {
            let first = name.get_char(0);
            let end = name.get_char(n - 1);
            if (first == '[' && end == ']') || (first == '{' && end == '}') {
                return Reader::read_grouped(name);
            }
            if end == ']' {
                return Reader::read_array(name);
            }
        }
        Reader::read_scalar(name)
    }

    /// Reads a tuple written as `[t1,t2,...]` or `{t1,t2,...}`.
    fn read_grouped(name: &str) -> (r: Result<ParamType, Error>)
        requires
            is_grouped(name@),
        ensures
            outcome(r) == parse(name@),
        decreases name@.len(), 0int,
    {
        let ghost s = name@;
        let n = name.unicode_len();
        let mut subtypes: Vec<Box<ParamType>> = Vec::new();
        let mut nested: usize = 0;
        let mut last: usize = 1;
        let mut pos: usize = 0;
        assert(elems(subtypes@) == Seq::<Kind>::empty());
        while pos < n
            invariant
                s == name@,
                n == s.len(),
                is_grouped(s),
                pos <= n,
                nested <= pos,
                scan(s, 0, 0, 1, seq![]) == scan(s, pos as int, nested as int, last as int, elems(subtypes@)),
            decreases n - pos,
        {
            let c = name.get_char(pos);
            let close = c == ']' || c == '}';
            if c == '[' || c == '{' {
                nested = nested + 1;
            } else if close && nested == 0 {
                return Err(Error::InvalidName(name.to_owned()));
            } else if (close && nested == 1) || (c == ',' && nested == 1) {
                if 1 <= last && last <= pos {
                    let sub = name.substring_char(last, pos);
                    match Reader::read(sub) {
                        Ok(t) => {
                            let ghost before = subtypes@;
                            subtypes.push(Box::new(t));
                            assert(elems(subtypes@) == elems(before).push(t@));
                        },
                        Err(e) => {
                            return Err(e);
                        },
                    }
                    nested = if close { 0 } else { 1 };
                    last = pos + 1;
                } else {
                    return Err(Error::InvalidName(name.to_owned()));
                }
            } else if close {
                nested = nested - 1;
            }
            pos = pos + 1;
        }
        proof {
            lemma_tuple_view(subtypes);
        }
        Ok(ParamType::Tuple(subtypes))
    }

    /// Reads an array type: `t[]` or `t[n]`.
    fn read_array(name: &str) -> (r: Result<ParamType, Error>)
        requires
            name@.len() > 0,
            name@.last() == ']',
            !is_grouped(name@),
        ensures
            outcome(r) == parse(name@),
        decreases name@.len(), 0int,
    {
        let ghost s = name@;
        let n = name.unicode_len();
        let mut k: usize = n - 1;
        while k > 0 && name.get_char(k - 1) != '['
            invariant
                s == name@,
                n == s.len(),
                k <= n - 1,
                find_open(s, k as int) == find_open(s, n - 1),
            decreases k,
        {
            k = k - 1;
        }
        if k == 0 {
            return Err(Error::InvalidName(name.to_owned()));
        }
        let j = k - 1;
        let num = name.substring_char(k, n - 1);
        let prefix = name.substring_char(0, j);
        if num.unicode_len() == 0 {
            match Reader::read(prefix) {
                Ok(t) => Ok(ParamType::Array(Box::new(t))),
                Err(e) => Err(e),
            }
        } else {
            match parse_decimal(num) {
                None => Err(Error::InvalidNumber),
                Some(len) => match Reader::read(prefix) {
                    Ok(t) => Ok(ParamType::FixedArray(Box::new(t), len)),
                    Err(e) => Err(e),
                },
            }
        }
    }

    /// Reads a keyword, or a keyword with a numeric suffix.
    fn read_scalar(name: &str) -> (r: Result<ParamType, Error>)
        requires
            !is_grouped(name@),
            !(name@.len() > 0 && name@.last() == ']'),
        ensures
            outcome(r) == parse(name@),
    {
        proof {
            reveal_strlit("int");
            reveal_strlit("uint");
            reveal_strlit("bytes");
        }
        let n = name.unicode_len();
        let t = if same_text(name, "address") {
            ParamType::Address
        } else if same_text(name, "bytes") {
            ParamType::Bytes
        } else if same_text(name, "bool") {
            ParamType::Bool
        } else if same_text(name, "string") {
            ParamType::String
        } else if same_text(name, "int") {
            ParamType::Int(256)
        } else if same_text(name, "tuple") {
            let v: Vec<Box<ParamType>> = Vec::new();
            proof {
                lemma_tuple_view(v);
                assert(elems(v@) =~= seq![]);
            }
            ParamType::Tuple(v)
        } else if same_text(name, "uint") {
            ParamType::Uint(256)
        } else if has_prefix(name, "int") {
            match parse_decimal(name.substring_char(3, n)) {
                Some(len) => ParamType::Int(len),
                None => {
                    return Err(Error::InvalidNumber);
                },
            }
        } else if has_prefix(name, "uint") {
            match parse_decimal(name.substring_char(4, n)) {
                Some(len) => ParamType::Uint(len),
                None => {
                    return Err(Error::InvalidNumber);
                },
            }
        } else if has_prefix(name, "bytes") {
            match parse_decimal(name.substring_char(5, n)) {
                Some(len) => ParamType::FixedBytes(len),
                None => {
                    return Err(Error::InvalidNumber);
                },
            }
        } else {
            return Err(Error::InvalidName(name.to_owned()));
        };
        Ok(t)
    }
}

} // verus!

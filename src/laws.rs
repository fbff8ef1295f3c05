//! Laws of the type-name grammar, proved over `parse`.
use vstd::prelude::*;
use crate::error::Fault;
use crate::event_param::{event_param, EventModel};
use crate::fields::{collect, field_step, lemma_collect_fails, Collected};
use crate::node::Node;
use crate::tuple_param::{tuple_param, TupleModel};
use crate::param_type::{Kind, ParamType};
use crate::reader::{is_close, is_grouped, is_open, scan, all_digits, decimal, digits_value, find_open, is_digit, parse, parse_scalar, unsigned_digits};

verus! {

proof fn reveal_keywords()
    ensures
        "address"@ =~= seq!['a', 'd', 'd', 'r', 'e', 's', 's'],
        "bytes"@ =~= seq!['b', 'y', 't', 'e', 's'],
        "bool"@ =~= seq!['b', 'o', 'o', 'l'],
        "string"@ =~= seq!['s', 't', 'r', 'i', 'n', 'g'],
        "int"@ =~= seq!['i', 'n', 't'],
        "tuple"@ =~= seq!['t', 'u', 'p', 'l', 'e'],
        "uint"@ =~= seq!['u', 'i', 'n', 't'],
        "[]"@ =~= seq!['[', ']'],
        "["@ =~= seq!['['],
        "]"@ =~= seq![']'],
{
    reveal_strlit("address");
    reveal_strlit("bytes");
    reveal_strlit("bool");
    reveal_strlit("string");
    reveal_strlit("int");
    reveal_strlit("tuple");
    reveal_strlit("uint");
    reveal_strlit("[]");
    reveal_strlit("[");
    reveal_strlit("]");
}

/// Each bare keyword reads as its type: `int` and `uint` as 256 bits wide.
pub proof fn lemma_read_keywords()
    ensures
        parse("address"@) == Ok::<Kind, Fault>(Kind::Address),
        parse("bytes"@) == Ok::<Kind, Fault>(Kind::Bytes),
        parse("bool"@) == Ok::<Kind, Fault>(Kind::Bool),
        parse("string"@) == Ok::<Kind, Fault>(Kind::String),
        parse("int"@) == Ok::<Kind, Fault>(Kind::Int(256)),
        parse("uint"@) == Ok::<Kind, Fault>(Kind::Uint(256)),
        parse("tuple"@) == Ok::<Kind, Fault>(Kind::Tuple(seq![])),
{
    reveal_keywords();
}

/// No character of an unsigned decimal opens a group.
proof fn lemma_decimal_has_no_open(d: Seq<char>)
    requires
        decimal(d) is Some,
    ensures
        d.len() > 0,
        forall|i: int| 0 <= i < d.len() ==> #[trigger] d[i] != '[' && d[i] != '{',
{
    let u = unsigned_digits(d);
    assert forall|i: int| 0 <= i < d.len() implies #[trigger] d[i] != '[' && d[i] != '{' by {
        if d.len() > 1 && d[0] == '+' {
            if i > 0 {
                assert(d[i] == u[i - 1]);
                assert(is_digit(u[i - 1]));
            }
        } else {
            assert(is_digit(u[i]));
        }
    }
}

/// A keyword followed by an unsigned decimal `n` reads as that keyword's type
/// of size `n`: `intN`, `uintN`, `bytesN`.
pub proof fn lemma_read_sized_keywords(d: Seq<char>, n: nat)
    requires
        decimal(d) == Some(n),
    ensures
        parse("int"@ + d) == Ok::<Kind, Fault>(Kind::Int(n)),
        parse("uint"@ + d) == Ok::<Kind, Fault>(Kind::Uint(n)),
        parse("bytes"@ + d) == Ok::<Kind, Fault>(Kind::FixedBytes(n)),
{
    reveal_keywords();
    lemma_decimal_has_no_open(d);
    let last = d[d.len() - 1];
    let a = "int"@ + d;
    assert(a[0] == 'i' && a.last() == last);
    assert(a.len() > 3 && a[0] != "address"@[0] && a[0] != "bytes"@[0] && a[0] != "bool"@[0]);
    assert(a != "string"@ && a != "tuple"@ && a != "uint"@ && a != "address"@ && a != "bytes"@ && a != "bool"@);
    assert(a.subrange(0, 3) =~= "int"@);
    assert(a.skip(3) =~= d);
    assert(parse(a) == parse_scalar(a));
    let b = "uint"@ + d;
    assert(b[0] == 'u' && b.last() == last);
    assert(b != "string"@ && b != "tuple"@ && b != "int"@ && b != "address"@ && b != "bytes"@ && b != "bool"@);
    assert(b.len() > 4 && b != "uint"@);
    assert(b.subrange(0, 3)[0] != "int"@[0]);
    assert(b.subrange(0, 4) =~= "uint"@);
    assert(b.skip(4) =~= d);
    assert(parse(b) == parse_scalar(b));
    let c = "bytes"@ + d;
    assert(c[0] == 'b' && c.last() == last);
    assert(c != "string"@ && c != "tuple"@ && c != "int"@ && c != "address"@ && c != "uint"@);
    assert(c.len() > 5 && c != "bytes"@ && c != "bool"@);
    assert(c.subrange(0, 3)[0] != "int"@[0]);
    assert(c.subrange(0, 4)[0] != "uint"@[0]);
    assert(c.subrange(0, 5) =~= "bytes"@);
    assert(c.skip(5) =~= d);
    assert(parse(c) == parse_scalar(c));
}

/// The empty string names no type.
proof fn lemma_empty_is_invalid()
    ensures
        parse(Seq::<char>::empty()) == Err::<Kind, Fault>(Fault::InvalidName(Seq::<char>::empty())),
{
    reveal_keywords();
}

/// A dynamic array suffix wraps the element type: `read(T + "[]")` is
/// `Array(read(T))` for every valid `T` that does not itself open with `[`
/// (such a `T` makes the whole name a bracketed tuple).
pub proof fn lemma_read_dynamic_array(t: Seq<char>, k: Kind)
    requires
        parse(t) == Ok::<Kind, Fault>(k),
        !(t.len() > 0 && t[0] == '['),
    ensures
        parse(t + "[]"@) == Ok::<Kind, Fault>(Kind::Array(Box::new(k))),
{
    reveal_keywords();
    lemma_empty_is_invalid();
    if t.len() == 0 {
        assert(t =~= Seq::<char>::empty());
    }
    let s = t + "[]"@;
    assert(s[0] == t[0] && s.last() == ']' && s[s.len() - 2] == '[');
    assert(find_open(s, s.len() - 1) == s.len() - 2);
    assert(s.subrange(s.len() - 1, s.len() - 1).len() == 0);
    assert(s.subrange(0, s.len() - 2) =~= t);
}

proof fn lemma_find_open_skips(s: Seq<char>, j: int, k: int)
    requires
        0 <= j < k <= s.len(),
        s[j] == '[',
        forall|i: int| j < i < k ==> #[trigger] s[i] != '[',
    ensures
        find_open(s, k) == j,
    decreases k - j,
{
    if k > j + 1 {
        lemma_find_open_skips(s, j, k - 1);
    }
}

/// A fixed array suffix wraps the element type: `read(T + "[N]")` is
/// `FixedArray(read(T), N)` for every valid `T` that does not itself open
/// with `[`, and every writing of `N` that the reader accepts.
pub proof fn lemma_read_fixed_array(t: Seq<char>, k: Kind, d: Seq<char>, n: nat)
    requires
        parse(t) == Ok::<Kind, Fault>(k),
        !(t.len() > 0 && t[0] == '['),
        decimal(d) == Some(n),
    ensures
        parse(t + "["@ + d + "]"@) == Ok::<Kind, Fault>(Kind::FixedArray(Box::new(k), n)),
{
    reveal_keywords();
    lemma_empty_is_invalid();
    lemma_decimal_has_no_open(d);
    if t.len() == 0 {
        assert(t =~= Seq::<char>::empty());
    }
    let s = t + "["@ + d + "]"@;
    let j = t.len() as int;
    assert(s.len() == t.len() + d.len() + 2);
    assert(s[0] == t[0] && s.last() == ']' && s[j] == '[');
    assert forall|i: int| j < i < s.len() - 1 implies #[trigger] s[i] != '[' by {
        assert(s[i] == d[i - j - 1]);
    }
    lemma_find_open_skips(s, j, s.len() - 1);
    assert(s.subrange(j + 1, s.len() - 1) =~= d);
    assert(s.subrange(0, j) =~= t);
}

/// The decimal digit that writes `d`, for `d` below ten.
pub open spec fn digit_char(d: nat) -> char {
    if d == 0 {
        '0'
    } else if d == 1 {
        '1'
    } else if d == 2 {
        '2'
    } else if d == 3 {
        '3'
    } else if d == 4 {
        '4'
    } else if d == 5 {
        '5'
    } else if d == 6 {
        '6'
    } else if d == 7 {
        '7'
    } else if d == 8 {
        '8'
    } else {
        '9'
    }
}

/// The shortest decimal writing of `n`.
pub open spec fn decimal_text(n: nat) -> Seq<char>
    decreases n,
{
    if n < 10 {
        seq![digit_char(n)]
    } else {
        decimal_text(n / 10).push(digit_char(n % 10))
    }
}

proof fn lemma_digit_char(d: nat)
    requires
        d < 10,
    ensures
        is_digit(digit_char(d)),
        (digit_char(d) as int - '0' as int) as nat == d,
{
    assert('0' as int == 48);
    assert('9' as int == 57);
    if d == 0 {
    } else if d == 1 {
        assert('1' as int == 49);
    } else if d == 2 {
        assert('2' as int == 50);
    } else if d == 3 {
        assert('3' as int == 51);
    } else if d == 4 {
        assert('4' as int == 52);
    } else if d == 5 {
        assert('5' as int == 53);
    } else if d == 6 {
        assert('6' as int == 54);
    } else if d == 7 {
        assert('7' as int == 55);
    } else if d == 8 {
        assert('8' as int == 56);
    }
}

proof fn lemma_decimal_text_value(n: nat)
    ensures
        decimal_text(n).len() > 0,
        all_digits(decimal_text(n)),
        digits_value(decimal_text(n)) == n,
    decreases n,
{
    let t = decimal_text(n);
    lemma_digit_char(n % 10);
    if n < 10 {
        assert(t.drop_last() =~= Seq::<char>::empty());
        assert(digits_value(Seq::<char>::empty()) == 0);
        assert(n % 10 == n);
        assert(digits_value(t) == digits_value(t.drop_last()) * 10 + (t.last() as int - '0' as int) as nat);
    } else {
        lemma_decimal_text_value(n / 10);
        let p = decimal_text(n / 10);
        assert(t.drop_last() =~= p);
        assert(t.last() == digit_char(n % 10));
        assert(forall|i: int| 0 <= i < p.len() ==> t[i] == #[trigger] p[i]);
        assert(digits_value(t) == digits_value(p) * 10 + (n % 10));
        assert(n == (n / 10) * 10 + n % 10);
    }
}

/// Every size that fits in `usize` has a decimal writing that the reader accepts.
pub proof fn lemma_decimal_text_reads(n: nat)
    requires
        n <= usize::MAX,
    ensures
        decimal(decimal_text(n)) == Some(n),
{
    lemma_decimal_text_value(n);
    let t = decimal_text(n);
    assert(is_digit(t[0]));
    assert(unsigned_digits(t) == t);
}

/// The canonical name of a kind. A tuple is written `tuple`: a name carries
/// no element types.
pub open spec fn canonical(k: Kind) -> Seq<char>
    decreases k,
{
    match k {
        Kind::Address => "address"@,
        Kind::Bytes => "bytes"@,
        Kind::FixedBytes(n) => "bytes"@ + decimal_text(n),
        Kind::Int(n) => "int"@ + decimal_text(n),
        Kind::Uint(n) => "uint"@ + decimal_text(n),
        Kind::Bool => "bool"@,
        Kind::String => "string"@,
        Kind::Array(e) => canonical(*e) + "[]"@,
        Kind::FixedArray(e, n) => canonical(*e) + "["@ + decimal_text(n) + "]"@,
        Kind::Tuple(_) => "tuple"@,
    }
}

/// Whether a type holds no tuple at any depth.
pub open spec fn tuple_free(t: ParamType) -> bool
    decreases t,
{
    match t {
        ParamType::Array(e) => tuple_free(*e),
        ParamType::FixedArray(e, _) => tuple_free(*e),
        ParamType::Tuple(_) => false,
        _ => true,
    }
}

proof fn lemma_canonical_head(k: Kind)
    ensures
        canonical(k).len() > 0,
        canonical(k)[0] != '[',
    decreases k,
{
    reveal_keywords();
    match k {
        Kind::FixedBytes(n) => lemma_decimal_text_value(n),
        Kind::Int(n) => lemma_decimal_text_value(n),
        Kind::Uint(n) => lemma_decimal_text_value(n),
        Kind::Array(e) => lemma_canonical_head(*e),
        Kind::FixedArray(e, n) => lemma_canonical_head(*e),
        _ => {},
    }
}

/// Every type without tuples is read back from its canonical name.
pub proof fn lemma_read_canonical(t: ParamType)
    requires
        tuple_free(t),
    ensures
        parse(canonical(t@)) == Ok::<Kind, Fault>(t@),
    decreases t,
{
    lemma_read_keywords();
    match t {
        ParamType::FixedBytes(n) => {
            lemma_decimal_text_reads(n as nat);
            lemma_read_sized_keywords(decimal_text(n as nat), n as nat);
        },
        ParamType::Int(n) => {
            lemma_decimal_text_reads(n as nat);
            lemma_read_sized_keywords(decimal_text(n as nat), n as nat);
        },
        ParamType::Uint(n) => {
            lemma_decimal_text_reads(n as nat);
            lemma_read_sized_keywords(decimal_text(n as nat), n as nat);
        },
        ParamType::Array(e) => {
            lemma_read_canonical(*e);
            lemma_canonical_head((*e)@);
            lemma_read_dynamic_array(canonical((*e)@), (*e)@);
        },
        ParamType::FixedArray(e, n) => {
            lemma_read_canonical(*e);
            lemma_canonical_head((*e)@);
            lemma_decimal_text_reads(n as nat);
            lemma_read_fixed_array(canonical((*e)@), (*e)@, decimal_text(n as nat), n as nat);
        },
        _ => {},
    }
}

/// Round trip: every type without tuples has a name that reads back as it.
pub proof fn lemma_every_plain_type_has_a_name(t: ParamType)
    requires
        tuple_free(t),
    ensures
        exists|s: Seq<char>| parse(s) == Ok::<Kind, Fault>(t@),
{
    lemma_read_canonical(t);
}

proof fn lemma_no_components_collected(es: Seq<(String, Node)>, n: int, event: bool)
    requires
        0 <= n <= es.len(),
        forall|i: int| 0 <= i < es.len() ==> (#[trigger] es[i]).0@ != "components"@,
    ensures
        collect(es, n, event) is Ok ==> collect(es, n, event)->Ok_0.components is None,
    decreases n,
{
    if n > 0 {
        lemma_no_components_collected(es, n - 1, event);
        assert(es[n - 1].0@ != "components"@);
    }
}

/// An object without a `components` entry never yields a tuple: where its
/// `type` reads as a tuple and no earlier failure comes, the event parameter
/// fails with `MissingField("components")`.
pub proof fn lemma_event_tuple_needs_components(es: Seq<(String, Node)>)
    requires
        forall|i: int| 0 <= i < es.len() ==> (#[trigger] es[i]).0@ != "components"@,
    ensures
        event_param(es) is Ok ==> !(event_param(es)->Ok_0.kind is Tuple),
        ({
            let c = collect(es, es.len() as int, true);
            c is Ok && c->Ok_0.name is Some && c->Ok_0.kind is Some && c->Ok_0.kind->Some_0 is Tuple
                ==> event_param(es) == Err::<EventModel, Fault>(Fault::MissingField("components"@))
        }),
{
    lemma_no_components_collected(es, es.len() as int, true);
}

/// An object without a `components` entry never yields a tuple: where its
/// `type` reads as a tuple and no earlier failure comes, the tuple parameter
/// fails with `MissingField("components")`.
pub proof fn lemma_tuple_param_needs_components(es: Seq<(String, Node)>)
    requires
        forall|i: int| 0 <= i < es.len() ==> (#[trigger] es[i]).0@ != "components"@,
    ensures
        tuple_param(es) is Ok ==> !(tuple_param(es)->Ok_0.kind is Tuple),
        ({
            let c = collect(es, es.len() as int, false);
            c is Ok && c->Ok_0.kind is Some && c->Ok_0.kind->Some_0 is Tuple
                ==> tuple_param(es) == Err::<TupleModel, Fault>(Fault::MissingField("components"@))
        }),
{
    lemma_no_components_collected(es, es.len() as int, false);
}

proof fn lemma_name_stays_seen(es: Seq<(String, Node)>, i: int, m: int, event: bool)
    requires
        0 <= i < m <= es.len(),
        es[i].0@ == "name"@,
        collect(es, m, event) is Ok,
    ensures
        collect(es, m, event)->Ok_0.name is Some,
    decreases m,
{
    if m - 1 > i {
        if collect(es, m - 1, event) is Err {
            lemma_collect_fails(es, m - 1, m, event);
        }
        lemma_name_stays_seen(es, i, m - 1, event);
    }
}

/// An object with two `name` entries fails with `DuplicateField("name")`,
/// unless a failure comes before the second of them.
pub proof fn lemma_repeated_name_fails(es: Seq<(String, Node)>, i: int, j: int, event: bool)
    requires
        0 <= i < j < es.len(),
        es[i].0@ == "name"@,
        es[j].0@ == "name"@,
        collect(es, j, event) is Ok,
    ensures
        collect(es, es.len() as int, event) == Err::<Collected, Fault>(Fault::DuplicateField("name"@)),
        event ==> event_param(es) == Err::<EventModel, Fault>(Fault::DuplicateField("name"@)),
        !event ==> tuple_param(es) == Err::<TupleModel, Fault>(Fault::DuplicateField("name"@)),
{
    lemma_name_stays_seen(es, i, j, event);
    assert(collect(es, j + 1, event) == Err::<Collected, Fault>(Fault::DuplicateField("name"@)));
    lemma_collect_fails(es, j + 1, es.len() as int, event);
}

proof fn lemma_no_indexed_collected(es: Seq<(String, Node)>, n: int)
    requires
        0 <= n <= es.len(),
        forall|i: int| 0 <= i < es.len() ==> (#[trigger] es[i]).0@ != "indexed"@,
    ensures
        collect(es, n, true) is Ok ==> collect(es, n, true)->Ok_0.indexed is None,
    decreases n,
{
    if n > 0 {
        lemma_no_indexed_collected(es, n - 1);
        assert(es[n - 1].0@ != "indexed"@);
    }
}

/// An event parameter read from an object without an `indexed` entry is not indexed.
pub proof fn lemma_indexed_defaults_to_false(es: Seq<(String, Node)>)
    requires
        forall|i: int| 0 <= i < es.len() ==> (#[trigger] es[i]).0@ != "indexed"@,
    ensures
        event_param(es) is Ok ==> !event_param(es)->Ok_0.indexed,
{
    lemma_no_indexed_collected(es, es.len() as int);
}

/// Two gatherings agree but for the kind, where both hold a tuple.
pub open spec fn agree_but_tuple(a: Result<Collected, Fault>, b: Result<Collected, Fault>) -> bool {
    a == b || (a is Ok && b is Ok && a->Ok_0.name == b->Ok_0.name && a->Ok_0.indexed
        == b->Ok_0.indexed && a->Ok_0.components == b->Ok_0.components && a->Ok_0.kind is Some
        && b->Ok_0.kind is Some && a->Ok_0.kind->Some_0 is Tuple && b->Ok_0.kind->Some_0 is Tuple)
}

/// Whether a value is a type text that reads as a tuple.
pub open spec fn reads_as_tuple(v: Node) -> bool {
    match v {
        Node::Text(s) => parse(s@) is Ok && parse(s@)->Ok_0 is Tuple,
        _ => false,
    }
}

/// Entry lists that differ only in the text of one `type` entry, where both
/// texts read as tuples.
pub open spec fn differ_in_tuple_type(es1: Seq<(String, Node)>, es2: Seq<(String, Node)>, j: int) -> bool {
    &&& es1.len() == es2.len()
    &&& 0 <= j < es1.len()
    &&& forall|i: int| 0 <= i < es1.len() && i != j ==> #[trigger] es1[i] == es2[i]
    &&& es1[j].0@ == "type"@
    &&& es2[j].0@ == "type"@
    &&& reads_as_tuple(es1[j].1)
    &&& reads_as_tuple(es2[j].1)
}

proof fn lemma_collect_agrees(es1: Seq<(String, Node)>, es2: Seq<(String, Node)>, j: int, n: int, event: bool)
    requires
        differ_in_tuple_type(es1, es2, j),
        0 <= n <= es1.len(),
    ensures
        agree_but_tuple(collect(es1, n, event), collect(es2, n, event)),
    decreases n,
{
    if n > 0 {
        lemma_collect_agrees(es1, es2, j, n - 1, event);
        reveal_strlit("name");
        reveal_strlit("type");
        reveal_strlit("components");
        reveal_strlit("indexed");
        assert("name"@[0] != "type"@[0]);
        assert("components"@.len() != "type"@.len() && "indexed"@.len() != "type"@.len());
        let a = collect(es1, n - 1, event);
        let b = collect(es2, n - 1, event);
        let e1 = es1[n - 1];
        let e2 = es2[n - 1];
        if n - 1 != j {
            assert(e1 == e2);
        } else {
            assert(e1.1 is Text && e2.1 is Text);
        }
        if a is Ok && b is Ok {
            let x = a->Ok_0;
            let y = b->Ok_0;
            assert(collect(es1, n, event) == field_step(x, e1, event));
            assert(collect(es2, n, event) == field_step(y, e2, event));
            if e1.0@ == "name"@ {
                assert(agree_but_tuple(collect(es1, n, event), collect(es2, n, event)));
            } else if e1.0@ == "type"@ {
                assert(agree_but_tuple(collect(es1, n, event), collect(es2, n, event)));
            } else if e1.0@ == "components"@ {
                assert(agree_but_tuple(collect(es1, n, event), collect(es2, n, event)));
            } else if event && e1.0@ == "indexed"@ {
                assert(agree_but_tuple(collect(es1, n, event), collect(es2, n, event)));
            } else {
                assert(agree_but_tuple(collect(es1, n, event), collect(es2, n, event)));
            }
        } else {
            assert(a == b);
            assert(collect(es1, n, event) == collect(es2, n, event));
        }
    }
}

/// The type text of a tuple parameter only marks it as a tuple: objects that
/// differ only in that text, both reading as tuples, give the same event
/// parameter and the same tuple parameter, whose elements come from `components`.
pub proof fn lemma_tuple_type_text_is_ignored(es1: Seq<(String, Node)>, es2: Seq<(String, Node)>, j: int)
    requires
        differ_in_tuple_type(es1, es2, j),
    ensures
        event_param(es1) == event_param(es2),
        tuple_param(es1) == tuple_param(es2),
{
    lemma_collect_agrees(es1, es2, j, es1.len() as int, true);
    lemma_collect_agrees(es1, es2, j, es1.len() as int, false);
}

/// How many groups are open after the first `q` characters of `t`.
pub open spec fn depth(t: Seq<char>, q: int) -> int
    decreases q,
{
    if q <= 0 {
        0
    } else {
        depth(t, q - 1) + if is_open(t[q - 1]) {
            1
        } else if is_close(t[q - 1]) {
            -1
        } else {
            0
        }
    }
}

/// Whether `t` can stand as one item of a tuple: its groups balance, and no
/// comma or closing bracket of it stands outside all of its groups.
pub open spec fn balanced_item(t: Seq<char>) -> bool {
    &&& forall|q: int| 0 <= q <= t.len() ==> #[trigger] depth(t, q) >= 0
    &&& forall|q: int|
        0 <= q < t.len() && (is_close(#[trigger] t[q]) || t[q] == ',') ==> depth(t, q) >= 1
    &&& depth(t, t.len() as int) == 0
}

/// The items joined by commas.
pub open spec fn comma_join(items: Seq<Seq<char>>) -> Seq<char>
    decreases items.len(),
{
    if items.len() <= 1 {
        if items.len() == 1 {
            items[0]
        } else {
            seq![]
        }
    } else {
        items[0] + ","@ + comma_join(items.drop_first())
    }
}

proof fn lemma_scan_over_item(s: Seq<char>, p: int, t: Seq<char>, q: int, last: int, acc: Seq<Kind>)
    requires
        p + t.len() <= s.len(),
        0 <= p,
        forall|i: int| 0 <= i < t.len() ==> s[p + i] == #[trigger] t[i],
        balanced_item(t),
        0 <= q <= t.len(),
    ensures
        scan(s, p + q, 1 + depth(t, q), last, acc) == scan(s, p + t.len(), 1, last, acc),
    decreases t.len() - q,
{
    if q < t.len() {
        assert(s[p + q] == t[q]);
        assert(depth(t, q) >= 0);
        assert(depth(t, q + 1) >= 0);
        lemma_scan_over_item(s, p, t, q + 1, last, acc);
        assert((p + q) + 1 == p + (q + 1));
    }
}

proof fn lemma_scan_comma(s: Seq<char>, e: int, p: int, acc: Seq<Kind>, k: Kind)
    requires
        1 <= p <= e < s.len(),
        s[e] == ',',
        parse(s.subrange(p, e)) == Ok::<Kind, Fault>(k),
    ensures
        scan(s, e, 1, p, acc) == scan(s, e + 1, 1, e + 1, acc.push(k)),
{
}

proof fn lemma_scan_end(s: Seq<char>, e: int, p: int, acc: Seq<Kind>, k: Kind)
    requires
        1 <= p <= e,
        e + 1 == s.len(),
        s[e] == ']',
        parse(s.subrange(p, e)) == Ok::<Kind, Fault>(k),
    ensures
        scan(s, e, 1, p, acc) == Ok::<Kind, Fault>(Kind::Tuple(acc.push(k))),
{
    assert(scan(s, e + 1, 0, e + 1, acc.push(k)) == Ok::<Kind, Fault>(Kind::Tuple(acc.push(k))));
}

/// Where the first item of a comma-joined list stands in `s`, and what follows it.
proof fn lemma_item_layout(s: Seq<char>, p: int, items: Seq<Seq<char>>)
    requires
        0 <= p <= s.len(),
        items.len() >= 1,
        s.subrange(p, s.len() as int) == comma_join(items) + "]"@,
    ensures
        p + items[0].len() < s.len(),
        forall|i: int| 0 <= i < items[0].len() ==> s[p + i] == #[trigger] items[0][i],
        s.subrange(p, p + items[0].len()) == items[0],
        items.len() == 1 ==> s[p + items[0].len()] == ']' && p + items[0].len() + 1 == s.len(),
        items.len() > 1 ==> s[p + items[0].len()] == ',' && s.subrange(p + items[0].len() + 1, s.len() as int)
            == comma_join(items.drop_first()) + "]"@,
{
    reveal_strlit(",");
    reveal_strlit("]");
    let t = items[0];
    let rest = s.subrange(p, s.len() as int);
    if items.len() == 1 {
        assert(rest == t + "]"@);
    } else {
        assert(rest =~= t + (","@ + comma_join(items.drop_first()) + "]"@));
        assert(rest.subrange(t.len() as int + 1, rest.len() as int) =~= comma_join(items.drop_first()) + "]"@);
        assert(s.subrange(p + t.len() + 1, s.len() as int) =~= rest.subrange(t.len() as int + 1, rest.len() as int));
    }
    assert(rest.len() == s.len() - p);
    assert(rest.len() > t.len());
    assert(rest[t.len() as int] == s[p + t.len()]);
    assert forall|i: int| 0 <= i < t.len() implies s[p + i] == #[trigger] t[i] by {
        assert(rest[i] == t[i]);
        assert(rest[i] == s[p + i]);
    }
    assert(s.subrange(p, p + t.len()) =~= t);
}

proof fn lemma_scan_items(s: Seq<char>, p: int, items: Seq<Seq<char>>, ks: Seq<Kind>, acc: Seq<Kind>)
    requires
        1 <= p <= s.len(),
        items.len() >= 1,
        items.len() == ks.len(),
        forall|i: int| 0 <= i < items.len() ==> balanced_item(#[trigger] items[i]),
        forall|i: int| 0 <= i < items.len() ==> parse(#[trigger] items[i]) == Ok::<Kind, Fault>(ks[i]),
        s.subrange(p, s.len() as int) == comma_join(items) + "]"@,
    ensures
        scan(s, p, 1, p, acc) == Ok::<Kind, Fault>(Kind::Tuple(acc + ks)),
    decreases items.len(),
{
    let t = items[0];
    let e = p + t.len();
    lemma_item_layout(s, p, items);
    assert(balanced_item(t));
    assert(depth(t, 0) == 0);
    lemma_scan_over_item(s, p, t, 0, p, acc);
    assert(parse(t) == Ok::<Kind, Fault>(ks[0]));
    if items.len() == 1 {
        lemma_scan_end(s, e, p, acc, ks[0]);
        assert(acc.push(ks[0]) =~= acc + ks);
    } else {
        lemma_scan_comma(s, e, p, acc, ks[0]);
        let tail = items.drop_first();
        let ktail = ks.drop_first();
        assert forall|i: int| 0 <= i < tail.len() implies balanced_item(#[trigger] tail[i]) by {
            assert(tail[i] == items[i + 1]);
        }
        assert forall|i: int| 0 <= i < tail.len() implies parse(#[trigger] tail[i]) == Ok::<Kind, Fault>(ktail[i]) by {
            assert(tail[i] == items[i + 1]);
        }
        lemma_scan_items(s, e + 1, tail, ktail, acc.push(ks[0]));
        assert(acc.push(ks[0]) + ktail =~= acc + ks);
    }
}

/// A tuple in brackets reads item by item: `read("[" + t1 + "," + ... + "]")`
/// is the tuple of `read(t1), ...`, for any items that each read well and
/// keep their commas and closing brackets inside their own groups.
pub proof fn lemma_read_bracket_tuple(items: Seq<Seq<char>>, ks: Seq<Kind>)
    requires
        items.len() >= 1,
        items.len() == ks.len(),
        forall|i: int| 0 <= i < items.len() ==> balanced_item(#[trigger] items[i]),
        forall|i: int| 0 <= i < items.len() ==> parse(#[trigger] items[i]) == Ok::<Kind, Fault>(ks[i]),
    ensures
        parse("["@ + comma_join(items) + "]"@) == Ok::<Kind, Fault>(Kind::Tuple(ks)),
{
    reveal_strlit("[");
    reveal_strlit("]");
    let s = "["@ + comma_join(items) + "]"@;
    assert(s[0] == '[' && s.last() == ']');
    assert(s.subrange(1, s.len() as int) =~= comma_join(items) + "]"@);
    assert(is_grouped(s));
    assert(parse(s) == scan(s, 0, 0, 1, seq![]));
    assert(is_open(s[0]));
    assert(scan(s, 0, 0, 1, seq![]) == scan(s, 1, 1, 1, seq![]));
    lemma_scan_items(s, 1, items, ks, seq![]);
    assert(seq![] + ks =~= ks);
}

} // verus!

//! A JSON value model with a verified serializer and parser.
//!
//! Numbers are kept as their decimal lexeme, so a value round-trips through
//! text without loss. Strings hold decoded bytes; the serializer re-escapes
//! quotes, backslashes and the common control characters.
use vstd::prelude::*;

verus! {

/// Mathematical model of a JSON value.
#[verifier::ext_equal]
pub enum JsonV {
    Null,
    Bool(bool),
    /// The decimal lexeme of the number, e.g. `-12.5e3`.
    Num(Seq<u8>),
    /// Decoded string contents (escape sequences already resolved).
    Str(Seq<u8>),
    Arr(Seq<JsonV>),
    Obj(Seq<(Seq<u8>, JsonV)>),
}

/// A JSON value as held at run time. Its view is a `JsonV`.
#[derive(Debug)]
pub enum Json {
    Null,
    Bool(bool),
    Num(Vec<u8>),
    Str(Vec<u8>),
    Arr(Vec<Json>),
    Obj(Vec<(Vec<u8>, Json)>),
}

/// The model of a run-time JSON value.
pub open spec fn vjson(v: Json) -> JsonV
    decreases v, 1int, 0int,
{
    match v {
        Json::Null => JsonV::Null,
        Json::Bool(b) => JsonV::Bool(b),
        Json::Num(n) => JsonV::Num(n@),
        Json::Str(s) => JsonV::Str(s@),
        Json::Arr(a) => JsonV::Arr(velems(a@, 0)),
        Json::Obj(o) => JsonV::Obj(vmembers(o@, 0)),
    }
}

/// The models of the elements of `s` from index `i` on.
pub open spec fn velems(s: Seq<Json>, i: int) -> Seq<JsonV>
    decreases s, 0int, s.len() - i,
{
    if 0 <= i < s.len() {
        seq![vjson(s[i])] + velems(s, i + 1)
    } else {
        Seq::empty()
    }
}

/// The models of the members of `s` from index `i` on.
pub open spec fn vmembers(s: Seq<(Vec<u8>, Json)>, i: int) -> Seq<(Seq<u8>, JsonV)>
    decreases s, 0int, s.len() - i,
{
    if 0 <= i < s.len() {
        seq![(s[i].0@, vjson(s[i].1))] + vmembers(s, i + 1)
    } else {
        Seq::empty()
    }
}

/// Length and pointwise content of `velems`.
pub proof fn lemma_velems(s: Seq<Json>, j: int)
    requires
        0 <= j <= s.len(),
    ensures
        velems(s, j).len() == s.len() - j,
        forall|k: int| 0 <= k < s.len() - j ==> velems(s, j)[k] == vjson(s[j + k]),
    decreases s.len() - j,
{
    if j < s.len() {
        lemma_velems(s, j + 1);
    }
}

/// Length and pointwise content of `vmembers`.
pub proof fn lemma_vmembers(s: Seq<(Vec<u8>, Json)>, j: int)
    requires
        0 <= j <= s.len(),
    ensures
        vmembers(s, j).len() == s.len() - j,
        forall|k: int| 0 <= k < s.len() - j ==> vmembers(s, j)[k] == (s[j + k].0@, vjson(s[j + k].1)),
    decreases s.len() - j,
{
    if j < s.len() {
        lemma_vmembers(s, j + 1);
    }
}

impl View for Json {
    type V = JsonV;

    open spec fn view(&self) -> JsonV {
        vjson(*self)
    }
}

/// JSON insignificant whitespace.
pub open spec fn is_ws(b: u8) -> bool {
    b == 0x20 || b == 0x09 || b == 0x0a || b == 0x0d
}

pub open spec fn is_digit(b: u8) -> bool {
    0x30 <= b && b <= 0x39
}

/// Bytes that may occur in a number lexeme.
pub open spec fn is_num_byte(b: u8) -> bool {
    is_digit(b) || b == 0x2d || b == 0x2b || b == 0x2e || b == 0x65 || b == 0x45
}

/// First position at or after `i` that does not hold a digit.
pub open spec fn digits_end(t: Seq<u8>, i: int) -> int
    decreases t.len() - i,
{
    if 0 <= i < t.len() && is_digit(t[i]) {
        digits_end(t, i + 1)
    } else {
        i
    }
}

/// End of the optional fraction beginning at `i`: a dot must be followed by
/// at least one digit.
pub open spec fn frac_end(t: Seq<u8>, i: int) -> Option<int> {
    if 0 <= i < t.len() && t[i] == 0x2e {
        if digits_end(t, i + 1) > i + 1 {
            Some(digits_end(t, i + 1))
        } else {
            None
        }
    } else {
        Some(i)
    }
}

/// End of the optional exponent beginning at `i`: an exponent letter, an
/// optional sign, and at least one digit.
pub open spec fn exp_end(t: Seq<u8>, i: int) -> Option<int> {
    if 0 <= i < t.len() && (t[i] == 0x65 || t[i] == 0x45) {
        let j = if i + 1 < t.len() && (t[i + 1] == 0x2b || t[i + 1] == 0x2d) {
            i + 2
        } else {
            i + 1
        };
        if digits_end(t, j) > j {
            Some(digits_end(t, j))
        } else {
            None
        }
    } else {
        Some(i)
    }
}

/// A number lexeme: an optional minus sign, an integer part without a
/// superfluous leading zero, an optional fraction, an optional exponent,
/// and nothing after them.
pub open spec fn valid_num(t: Seq<u8>) -> bool {
    let i0: int = if t.len() > 0 && t[0] == 0x2d {
        1
    } else {
        0
    };
    let ie = digits_end(t, i0);
    &&& t.len() > 0
    &&& ie > i0
    &&& (t[i0] == 0x30 ==> ie == i0 + 1)
    &&& (frac_end(t, ie) matches Some(fe) && (exp_end(t, fe) matches Some(ee) && ee == t.len()))
}

/// What a single escape letter decodes to, if it is recognised.
pub open spec fn esc_decode(b: u8) -> Option<u8> {
    if b == 0x22 {
        Some(0x22u8)
    } else if b == 0x5c {
        Some(0x5cu8)
    } else if b == 0x2f {
        Some(0x2fu8)
    } else if b == 0x6e {
        Some(0x0au8)
    } else if b == 0x74 {
        Some(0x09u8)
    } else if b == 0x72 {
        Some(0x0du8)
    } else if b == 0x62 {
        Some(0x08u8)
    } else if b == 0x66 {
        Some(0x0cu8)
    } else {
        None
    }
}

/// How one decoded byte is written inside a string literal.
pub open spec fn esc_encode(b: u8) -> Seq<u8> {
    if b == 0x22 {
        seq![0x5cu8, 0x22u8]
    } else if b == 0x5c {
        seq![0x5cu8, 0x5cu8]
    } else if b == 0x0a {
        seq![0x5cu8, 0x6eu8]
    } else if b == 0x09 {
        seq![0x5cu8, 0x74u8]
    } else if b == 0x0d {
        seq![0x5cu8, 0x72u8]
    } else {
        seq![b]
    }
}

/// Text that the serializer can write as a legal JSON string: no raw control
/// bytes other than newline, tab and carriage return (those are escaped).
pub open spec fn wf_text(t: Seq<u8>) -> bool {
    forall|i: int| 0 <= i < t.len() ==> (#[trigger] t[i] >= 0x20 || t[i] == 0x0a || t[i] == 0x09 || t[i] == 0x0d)
}

/// A value the serializer renders as legal JSON: all strings and keys are
/// writable text and all number lexemes are valid.
pub open spec fn wf(v: JsonV) -> bool
    decreases v,
{
    match v {
        JsonV::Null => true,
        JsonV::Bool(_) => true,
        JsonV::Num(t) => valid_num(t),
        JsonV::Str(t) => wf_text(t),
        JsonV::Arr(es) => forall|i: int| 0 <= i < es.len() ==> wf(#[trigger] es[i]),
        JsonV::Obj(fs) => forall|i: int| 0 <= i < fs.len()
            ==> wf_text((#[trigger] fs[i]).0) && wf(fs[i].1),
    }
}

/// The escaped body of a string literal, over the first `i` bytes of `t`.
pub open spec fn ser_str_upto(t: Seq<u8>, i: int) -> Seq<u8>
    decreases i,
{
    if i <= 0 {
        Seq::empty()
    } else {
        ser_str_upto(t, i - 1) + esc_encode(t[i - 1])
    }
}

/// The escaped body of a string literal.
pub open spec fn ser_str_body(t: Seq<u8>) -> Seq<u8> {
    ser_str_upto(t, t.len() as int)
}

/// A complete string literal, quotes included.
pub open spec fn ser_string(t: Seq<u8>) -> Seq<u8> {
    seq![0x22u8] + ser_str_body(t) + seq![0x22u8]
}

/// Serialization of a JSON value to bytes.
pub open spec fn ser(v: JsonV) -> Seq<u8>
    decreases v, 1int,
{
    match v {
        JsonV::Null => seq![0x6eu8, 0x75u8, 0x6cu8, 0x6cu8],
        JsonV::Bool(b) => if b {
            seq![0x74u8, 0x72u8, 0x75u8, 0x65u8]
        } else {
            seq![0x66u8, 0x61u8, 0x6cu8, 0x73u8, 0x65u8]
        },
        JsonV::Num(t) => t,
        JsonV::Str(t) => ser_string(t),
        JsonV::Arr(es) => seq![0x5bu8] + ser_elems_upto(es, es.len() as int) + seq![0x5du8],
        JsonV::Obj(fs) => seq![0x7bu8] + ser_members_upto(fs, fs.len() as int) + seq![0x7du8],
    }
}

/// The comma-joined serialization of the first `i` array elements.
pub open spec fn ser_elems_upto(es: Seq<JsonV>, i: int) -> Seq<u8>
    decreases es, 0int, i,
{
    if i <= 0 || i > es.len() {
        Seq::empty()
    } else if i == 1 {
        ser(es[0])
    } else {
        ser_elems_upto(es, i - 1) + seq![0x2cu8] + ser(es[i - 1])
    }
}

/// The comma-joined serialization of the first `i` object members.
pub open spec fn ser_members_upto(fs: Seq<(Seq<u8>, JsonV)>, i: int) -> Seq<u8>
    decreases fs, 0int, i,
{
    if i <= 0 || i > fs.len() {
        Seq::empty()
    } else if i == 1 {
        ser_string(fs[0].0) + seq![0x3au8] + ser(fs[0].1)
    } else {
        ser_members_upto(fs, i - 1) + seq![0x2cu8] + ser_string(fs[i - 1].0) + seq![0x3au8]
            + ser(fs[i - 1].1)
    }
}

/// Appends the bytes of `b` to `out`.
pub fn push_bytes(out: &mut Vec<u8>, b: &Vec<u8>)
    ensures
        final(out)@ == old(out)@ + b@,
{
    let mut i: usize = 0;
    while i < b.len()
        invariant
            i <= b@.len(),
            out@ == old(out)@ + b@.subrange(0, i as int),
        decreases b@.len() - i,
    {
        out.push(b[i]);
        i = i + 1;
        assert(out@ =~= old(out)@ + b@.subrange(0, i as int));
    }
    assert(out@ =~= old(out)@ + b@);
}

/// Appends the escaped string literal for `t`, quotes included.
fn write_string(t: &Vec<u8>, out: &mut Vec<u8>)
    ensures
        final(out)@ == old(out)@ + ser_string(t@),
{
    out.push(0x22u8);
    let mut i: usize = 0;
    while i < t.len()
        invariant
            i <= t@.len(),
            out@ == old(out)@ + seq![0x22u8] + ser_str_upto(t@, i as int),
        decreases t@.len() - i,
    {
        let b = t[i];
        if b == 0x22 || b == 0x5c {
            out.push(0x5cu8);
            out.push(b);
        } else if b == 0x0a {
            out.push(0x5cu8);
            out.push(0x6eu8);
        } else if b == 0x09 {
            out.push(0x5cu8);
            out.push(0x74u8);
        } else if b == 0x0d {
            out.push(0x5cu8);
            out.push(0x72u8);
        } else {
            out.push(b);
        }
        i = i + 1;
        assert(out@ =~= old(out)@ + seq![0x22u8] + ser_str_upto(t@, i as int));
    }
    out.push(0x22u8);
    assert(out@ =~= old(out)@ + ser_string(t@));
}

/// Appends the serialization of `v` to `out`.
#[verifier::loop_isolation(false)]
#[verifier::rlimit(50)]
pub fn write_json(v: &Json, out: &mut Vec<u8>)
    ensures
        final(out)@ == old(out)@ + ser(v@),
    decreases v,
{
    match v {
        Json::Null => {
            out.push(0x6eu8);
            out.push(0x75u8);
            out.push(0x6cu8);
            out.push(0x6cu8);
            assert(out@ =~= old(out)@ + ser(v@));
        },
        Json::Bool(b) => {
            if *b {
                out.push(0x74u8);
                out.push(0x72u8);
                out.push(0x75u8);
                out.push(0x65u8);
            } else {
                out.push(0x66u8);
                out.push(0x61u8);
                out.push(0x6cu8);
                out.push(0x73u8);
                out.push(0x65u8);
            }
            assert(out@ =~= old(out)@ + ser(v@));
        },
        Json::Num(t) => {
            push_bytes(out, t);
            assert(out@ =~= old(out)@ + ser(v@));
        },
        Json::Str(t) => {
            write_string(t, out);
            assert(out@ =~= old(out)@ + ser(v@));
        },
        Json::Arr(es) => {
            let ghost vs = velems(es@, 0);
            proof {
                lemma_velems(es@, 0);
            }
            out.push(0x5bu8);
            let mut i: usize = 0;
            while i < es.len()
                invariant
                    i <= es@.len(),
                    vs == velems(es@, 0),
                    vs.len() == es@.len(),
                    forall|k: int| 0 <= k < es@.len() ==> vs[k] == vjson(es@[k]),
                    out@ == old(out)@ + seq![0x5bu8] + ser_elems_upto(vs, i as int),
                decreases es@.len() - i,
            {
                if i > 0 {
                    out.push(0x2cu8);
                }
                proof {
                    assert(v->Arr_0 == *es);
                    assert(decreases_to!(*v => v->Arr_0));
                    assert(decreases_to!(*es => es@));
                    assert(decreases_to!(es@ => es@[i as int]));
                }
                write_json(&es[i], out);
                i = i + 1;
                assert(out@ =~= old(out)@ + seq![0x5bu8] + ser_elems_upto(vs, i as int));
            }
            out.push(0x5du8);
            assert(v@ == JsonV::Arr(vs));
            assert(out@ =~= old(out)@ + ser(v@));
        },
        Json::Obj(fs) => {
            let ghost ms = vmembers(fs@, 0);
            proof {
                lemma_vmembers(fs@, 0);
            }
            out.push(0x7bu8);
            let mut i: usize = 0;
            while i < fs.len()
                invariant
                    i <= fs@.len(),
                    ms == vmembers(fs@, 0),
                    ms.len() == fs@.len(),
                    forall|k: int| 0 <= k < fs@.len() ==> ms[k] == (fs@[k].0@, vjson(fs@[k].1)),
                    out@ == old(out)@ + seq![0x7bu8] + ser_members_upto(ms, i as int),
                decreases fs@.len() - i,
            {
                if i > 0 {
                    out.push(0x2cu8);
                }
                write_string(&fs[i].0, out);
                out.push(0x3au8);
                proof {
                    assert(v->Obj_0 == *fs);
                    assert(decreases_to!(*v => v->Obj_0));
                    assert(decreases_to!(*fs => fs@));
                    assert(decreases_to!(fs@ => fs@[i as int]));
                    assert(decreases_to!(fs@[i as int] => fs@[i as int].1));
                }
                write_json(&fs[i].1, out);
                i = i + 1;
                assert(out@ =~= old(out)@ + seq![0x7bu8] + ser_members_upto(ms, i as int));
            }
            out.push(0x7du8);
            assert(v@ == JsonV::Obj(ms));
            assert(out@ =~= old(out)@ + ser(v@));
        },
    }
}

/// Serializes a JSON value to fresh bytes.
pub fn to_bytes(v: &Json) -> (r: Vec<u8>)
    ensures
        r@ == ser(v@),
{
    let mut out: Vec<u8> = Vec::new();
    write_json(v, &mut out);
    out
}


/// Push and pointwise content: the model list of `s.push(v)`.
pub proof fn lemma_velems_push(s: Seq<Json>, v: Json)
    ensures
        velems(s.push(v), 0) == velems(s, 0) + seq![vjson(v)],
{
    lemma_velems(s, 0);
    lemma_velems(s.push(v), 0);
    assert(velems(s.push(v), 0) =~= velems(s, 0) + seq![vjson(v)]);
}

/// Push and pointwise content: the model list of `s.push((k, v))`.
pub proof fn lemma_vmembers_push(s: Seq<(Vec<u8>, Json)>, k: Vec<u8>, v: Json)
    ensures
        vmembers(s.push((k, v)), 0) == vmembers(s, 0) + seq![(k@, vjson(v))],
{
    lemma_vmembers(s, 0);
    lemma_vmembers(s.push((k, v)), 0);
    assert(vmembers(s.push((k, v)), 0) =~= vmembers(s, 0) + seq![(k@, vjson(v))]);
}

/// First position at or after `i` that does not hold whitespace.
pub open spec fn skip_ws(s: Seq<u8>, i: int) -> int
    decreases s.len() - i,
{
    if 0 <= i < s.len() && is_ws(s[i]) {
        skip_ws(s, i + 1)
    } else {
        i
    }
}

pub proof fn lemma_skip_ws(s: Seq<u8>, i: int)
    requires
        0 <= i <= s.len(),
    ensures
        i <= skip_ws(s, i) <= s.len(),
    decreases s.len() - i,
{
    if i < s.len() && is_ws(s[i]) {
        lemma_skip_ws(s, i + 1);
    }
}

/// End of the maximal run of number bytes starting at `i`.
pub open spec fn num_end(s: Seq<u8>, i: int) -> int
    decreases s.len() - i,
{
    if 0 <= i < s.len() && is_num_byte(s[i]) {
        num_end(s, i + 1)
    } else {
        i
    }
}

pub proof fn lemma_num_end(s: Seq<u8>, i: int)
    requires
        0 <= i <= s.len(),
    ensures
        i <= num_end(s, i) <= s.len(),
    decreases s.len() - i,
{
    if i < s.len() && is_num_byte(s[i]) {
        lemma_num_end(s, i + 1);
    }
}

/// Value of one hexadecimal digit byte.
pub open spec fn hex_val(b: u8) -> Option<int> {
    if 0x30 <= b && b <= 0x39 {
        Some((b - 0x30) as int)
    } else if 0x61 <= b && b <= 0x66 {
        Some((b - 0x61 + 10) as int)
    } else if 0x41 <= b && b <= 0x46 {
        Some((b - 0x41 + 10) as int)
    } else {
        None
    }
}

/// Value of the four hexadecimal digit bytes at `i`.
pub open spec fn hex4(s: Seq<u8>, i: int) -> Option<int> {
    if 0 <= i && i + 4 <= s.len() {
        match (hex_val(s[i]), hex_val(s[i + 1]), hex_val(s[i + 2]), hex_val(s[i + 3])) {
            (Some(a), Some(b), Some(c), Some(d)) => Some(a * 4096 + b * 256 + c * 16 + d),
            _ => None,
        }
    } else {
        None
    }
}

/// The UTF-8 encoding of the code point `c`.
pub open spec fn utf8_enc(c: int) -> Seq<u8> {
    if c < 0x80 {
        seq![c as u8]
    } else if c < 0x800 {
        seq![(0xc0 + c / 64) as u8, (0x80 + c % 64) as u8]
    } else if c < 0x10000 {
        seq![(0xe0 + c / 4096) as u8, (0x80 + (c / 64) % 64) as u8, (0x80 + c % 64) as u8]
    } else {
        seq![
            (0xf0 + c / 262144) as u8,
            (0x80 + (c / 4096) % 64) as u8,
            (0x80 + (c / 64) % 64) as u8,
            (0x80 + c % 64) as u8,
        ]
    }
}

/// Parses the body of a string literal from `i` (just after the opening
/// quote) to just after the closing quote, decoding escapes.
pub open spec fn parse_str_body(s: Seq<u8>, i: int) -> Option<(Seq<u8>, int)>
    decreases s.len() - i,
{
    if !(0 <= i < s.len()) {
        None
    } else if s[i] == 0x22 {
        Some((Seq::empty(), i + 1))
    } else if s[i] == 0x5c {
        if !(i + 1 < s.len()) {
            None
        } else if s[i + 1] == 0x75 {
            if i + 6 <= s.len() {
                match hex4(s, i + 2) {
                    Some(c1) => if 0xd800 <= c1 && c1 <= 0xdbff {
                        // A high surrogate must pair with a following low one.
                        if i + 12 <= s.len() && s[i + 6] == 0x5c && s[i + 7] == 0x75 {
                            match hex4(s, i + 8) {
                                Some(c2) => if 0xdc00 <= c2 && c2 <= 0xdfff {
                                    match parse_str_body(s, i + 12) {
                                        Some((t, e)) => Some(
                                            (
                                                utf8_enc(
                                                    0x10000 + (c1 - 0xd800) * 0x400 + (c2
                                                        - 0xdc00),
                                                ) + t,
                                                e,
                                            ),
                                        ),
                                        None => None,
                                    }
                                } else {
                                    None
                                },
                                None => None,
                            }
                        } else {
                            None
                        }
                    } else if 0xdc00 <= c1 && c1 <= 0xdfff {
                        None
                    } else {
                        match parse_str_body(s, i + 6) {
                            Some((t, e)) => Some((utf8_enc(c1) + t, e)),
                            None => None,
                        }
                    },
                    None => None,
                }
            } else {
                None
            }
        } else {
            match esc_decode(s[i + 1]) {
                Some(c) => match parse_str_body(s, i + 2) {
                    Some((t, e)) => Some((seq![c] + t, e)),
                    None => None,
                },
                None => None,
            }
        }
    } else if s[i] >= 0x20 {
        match parse_str_body(s, i + 1) {
            Some((t, e)) => Some((seq![s[i]] + t, e)),
            None => None,
        }
    } else {
        None
    }
}

/// Parses one JSON value, leading whitespace allowed; returns the value and
/// the position just after it.
pub open spec fn parse_value(s: Seq<u8>, i: int) -> Option<(JsonV, int)>
    decreases s.len() - i, 0int,
{
    let j = skip_ws(s, i);
    if !(i <= j && j < s.len()) {
        None
    } else {
        let b = s[j];
        if b == 0x7b {
            match parse_members(s, j + 1) {
                Some((fs, e)) => Some((JsonV::Obj(fs), e)),
                None => None,
            }
        } else if b == 0x5b {
            match parse_elems(s, j + 1) {
                Some((es, e)) => Some((JsonV::Arr(es), e)),
                None => None,
            }
        } else if b == 0x22 {
            match parse_str_body(s, j + 1) {
                Some((t, e)) => Some((JsonV::Str(t), e)),
                None => None,
            }
        } else if b == 0x74 {
            if s.len() - j >= 4 && s[j + 1] == 0x72 && s[j + 2] == 0x75 && s[j + 3] == 0x65 {
                Some((JsonV::Bool(true), j + 4))
            } else {
                None
            }
        } else if b == 0x66 {
            if j + 5 <= s.len() && s[j + 1] == 0x61 && s[j + 2] == 0x6c && s[j + 3] == 0x73 && s[j
                + 4] == 0x65 {
                Some((JsonV::Bool(false), j + 5))
            } else {
                None
            }
        } else if b == 0x6e {
            if s.len() - j >= 4 && s[j + 1] == 0x75 && s[j + 2] == 0x6c && s[j + 3] == 0x6c {
                Some((JsonV::Null, j + 4))
            } else {
                None
            }
        } else if is_digit(b) || b == 0x2d {
            let e = num_end(s, j);
            let t = s.subrange(j, e);
            if valid_num(t) {
                Some((JsonV::Num(t), e))
            } else {
                None
            }
        } else {
            None
        }
    }
}

/// Parses the elements of an array from `i` (just after the opening bracket)
/// to just after the closing bracket.
pub open spec fn parse_elems(s: Seq<u8>, i: int) -> Option<(Seq<JsonV>, int)>
    decreases s.len() - i, 2int,
{
    let j = skip_ws(s, i);
    if !(i <= j && j < s.len()) {
        None
    } else if s[j] == 0x5d {
        Some((Seq::empty(), j + 1))
    } else {
        parse_items(s, i)
    }
}

/// Parses one or more comma-separated array elements and the closing bracket.
pub open spec fn parse_items(s: Seq<u8>, i: int) -> Option<(Seq<JsonV>, int)>
    decreases s.len() - i, 1int,
{
    match parse_value(s, i) {
        Some((v, e)) => if i < e && e <= s.len() {
            let w = skip_ws(s, e);
            if e <= w && w < s.len() {
                if s[w] == 0x2c {
                    match parse_items(s, w + 1) {
                        Some((rest, e2)) => Some((seq![v] + rest, e2)),
                        None => None,
                    }
                } else if s[w] == 0x5d {
                    Some((seq![v], w + 1))
                } else {
                    None
                }
            } else {
                None
            }
        } else {
            None
        },
        None => None,
    }
}

/// Parses the members of an object from `i` (just after the opening brace)
/// to just after the closing brace.
pub open spec fn parse_members(s: Seq<u8>, i: int) -> Option<(Seq<(Seq<u8>, JsonV)>, int)>
    decreases s.len() - i, 2int,
{
    let j = skip_ws(s, i);
    if !(i <= j && j < s.len()) {
        None
    } else if s[j] == 0x7d {
        Some((Seq::empty(), j + 1))
    } else {
        parse_fields(s, i)
    }
}

/// Parses one or more comma-separated object members and the closing brace.
pub open spec fn parse_fields(s: Seq<u8>, i: int) -> Option<(Seq<(Seq<u8>, JsonV)>, int)>
    decreases s.len() - i, 1int,
{
    let j = skip_ws(s, i);
    if !(i <= j && j < s.len()) {
        None
    } else if s[j] == 0x22 {
        match parse_str_body(s, j + 1) {
            Some((k, e1)) => if j + 1 < e1 && e1 <= s.len() {
                let c = skip_ws(s, e1);
                if e1 <= c && c < s.len() && s[c] == 0x3a {
                    match parse_value(s, c + 1) {
                        Some((v, e2)) => if c < e2 && e2 <= s.len() {
                            let w = skip_ws(s, e2);
                            if e2 <= w && w < s.len() {
                                if s[w] == 0x2c {
                                    match parse_fields(s, w + 1) {
                                        Some((rest, e3)) => Some((seq![(k, v)] + rest, e3)),
                                        None => None,
                                    }
                                } else if s[w] == 0x7d {
                                    Some((seq![(k, v)], w + 1))
                                } else {
                                    None
                                }
                            } else {
                                None
                            }
                        } else {
                            None
                        },
                        None => None,
                    }
                } else {
                    None
                }
            } else {
                None
            },
            None => None,
        }
    } else {
        None
    }
}

/// Parses a whole document: one value with nothing but whitespace after it.
pub open spec fn parse_doc(s: Seq<u8>) -> Option<JsonV> {
    match parse_value(s, 0) {
        Some((v, e)) => if 0 <= e <= s.len() && skip_ws(s, e) == s.len() {
            Some(v)
        } else {
            None
        },
        None => None,
    }
}


/// Advances past whitespace.
#[verifier::loop_isolation(false)]
pub fn skip_ws_x(s: &Vec<u8>, i: usize) -> (r: usize)
    requires
        i <= s@.len(),
    ensures
        r == skip_ws(s@, i as int),
        i <= r <= s@.len(),
{
    let mut j: usize = i;
    while j < s.len() && (s[j] == 0x20 || s[j] == 0x09 || s[j] == 0x0a || s[j] == 0x0d)
        invariant
            i <= j <= s@.len(),
            skip_ws(s@, i as int) == skip_ws(s@, j as int),
        decreases s@.len() - j,
    {
        j = j + 1;
    }
    j
}

/// Advances past number bytes.
#[verifier::loop_isolation(false)]
fn num_end_x(s: &Vec<u8>, i: usize) -> (r: usize)
    requires
        i <= s@.len(),
    ensures
        r == num_end(s@, i as int),
        i <= r <= s@.len(),
{
    let mut j: usize = i;
    while j < s.len() && ((0x30 <= s[j] && s[j] <= 0x39) || s[j] == 0x2d || s[j] == 0x2b || s[j]
        == 0x2e || s[j] == 0x65 || s[j] == 0x45)
        invariant
            i <= j <= s@.len(),
            num_end(s@, i as int) == num_end(s@, j as int),
        decreases s@.len() - j,
    {
        j = j + 1;
    }
    j
}

/// Copies `s[a..b]` into a fresh vector.
#[verifier::loop_isolation(false)]
pub fn copy_range(s: &Vec<u8>, a: usize, b: usize) -> (r: Vec<u8>)
    requires
        a <= b <= s@.len(),
    ensures
        r@ == s@.subrange(a as int, b as int),
{
    let mut out: Vec<u8> = Vec::new();
    let mut j: usize = a;
    while j < b
        invariant
            a <= j <= b,
            out@ == s@.subrange(a as int, j as int),
        decreases b - j,
    {
        out.push(s[j]);
        j = j + 1;
        assert(out@ =~= s@.subrange(a as int, j as int));
    }
    out
}

/// Advances past digits.
#[verifier::loop_isolation(false)]
fn digits_end_x(t: &Vec<u8>, i: usize) -> (r: usize)
    requires
        i <= t@.len(),
    ensures
        r == digits_end(t@, i as int),
        i <= r <= t@.len(),
{
    let mut j: usize = i;
    while j < t.len() && 0x30 <= t[j] && t[j] <= 0x39
        invariant
            i <= j <= t@.len(),
            digits_end(t@, i as int) == digits_end(t@, j as int),
        decreases t@.len() - j,
    {
        j = j + 1;
    }
    j
}

/// Decides `valid_num` for a lexeme.
fn valid_num_x(t: &Vec<u8>) -> (r: bool)
    ensures
        r == valid_num(t@),
{
    if t.len() == 0 {
        return false;
    }
    let i0: usize = if t[0] == 0x2d {
        1
    } else {
        0
    };
    let ie = digits_end_x(t, i0);
    if ie <= i0 {
        return false;
    }
    if t[i0] == 0x30 && ie != i0 + 1 {
        return false;
    }
    let fe: usize = if ie < t.len() && t[ie] == 0x2e {
        let d = digits_end_x(t, ie + 1);
        if d <= ie + 1 {
            return false;
        }
        d
    } else {
        ie
    };
    let ee: usize = if fe < t.len() && (t[fe] == 0x65 || t[fe] == 0x45) {
        let j: usize = if fe + 1 < t.len() && (t[fe + 1] == 0x2b || t[fe + 1] == 0x2d) {
            fe + 2
        } else {
            fe + 1
        };
        let d2 = digits_end_x(t, j);
        if d2 <= j {
            return false;
        }
        d2
    } else {
        fe
    };
    ee == t.len()
}

/// Decides `hex_val`.
fn hex_val_x(b: u8) -> (r: Option<u8>)
    ensures
        (r matches Some(v) ==> hex_val(b) == Some(v as int) && v < 16),
        (r is None ==> hex_val(b) is None),
{
    if 0x30 <= b && b <= 0x39 {
        Some(b - 0x30)
    } else if 0x61 <= b && b <= 0x66 {
        Some(b - 0x61 + 10)
    } else if 0x41 <= b && b <= 0x46 {
        Some(b - 0x41 + 10)
    } else {
        None
    }
}

/// Decides `hex4`.
fn hex4_x(s: &Vec<u8>, i: usize) -> (r: Option<u32>)
    requires
        i + 4 <= s@.len(),
    ensures
        (r matches Some(v) ==> hex4(s@, i as int) == Some(v as int) && v <= 0xffff),
        (r is None ==> hex4(s@, i as int) is None),
{
    let n = s.len();
    assert(i + 4 <= n);
    let a = hex_val_x(s[i]);
    let b = hex_val_x(s[i + 1]);
    let c = hex_val_x(s[i + 2]);
    let d = hex_val_x(s[i + 3]);
    match (a, b, c, d) {
        (Some(a), Some(b), Some(c), Some(d)) => Some(
            (a as u32) * 4096 + (b as u32) * 256 + (c as u32) * 16 + (d as u32),
        ),
        _ => None,
    }
}

/// Appends the UTF-8 encoding of the code point `c`.
fn push_utf8(out: &mut Vec<u8>, c: u32)
    requires
        c <= 0x10ffff,
    ensures
        final(out)@ == old(out)@ + utf8_enc(c as int),
{
    if c < 0x80 {
        out.push(c as u8);
    } else if c < 0x800 {
        out.push((0xc0 + c / 64) as u8);
        out.push((0x80 + c % 64) as u8);
    } else if c < 0x10000 {
        out.push((0xe0 + c / 4096) as u8);
        out.push((0x80 + (c / 64) % 64) as u8);
        out.push((0x80 + c % 64) as u8);
    } else {
        out.push((0xf0 + c / 262144) as u8);
        out.push((0x80 + (c / 4096) % 64) as u8);
        out.push((0x80 + (c / 64) % 64) as u8);
        out.push((0x80 + c % 64) as u8);
    }
    assert(out@ =~= old(out)@ + utf8_enc(c as int));
}

/// Parses a string literal body, decoding escapes.
#[verifier::loop_isolation(false)]
fn parse_str_body_x(s: &Vec<u8>, i: usize) -> (r: Option<(Vec<u8>, usize)>)
    requires
        i <= s@.len(),
    ensures
        (r matches Some((t, e)) ==> parse_str_body(s@, i as int) == Some((t@, e as int)) && i < e
            <= s@.len()),
        (r is None ==> parse_str_body(s@, i as int) is None),
{
    let mut acc: Vec<u8> = Vec::new();
    let mut cur: usize = i;
    proof {
        assert forall|t: Seq<u8>| #[trigger] (acc@ + t) == t by {
            assert(acc@ + t =~= t);
        }
    }
    loop
        invariant
            i <= cur <= s@.len(),
            (parse_str_body(s@, cur as int) matches Some((t, e)) ==> parse_str_body(s@, i as int)
                == Some((acc@ + t, e))),
            (parse_str_body(s@, cur as int) is None ==> parse_str_body(s@, i as int) is None),
        decreases s@.len() - cur,
    {
        if cur >= s.len() {
            return None;
        }
        let b = s[cur];
        if b == 0x22 {
            assert(acc@ + Seq::<u8>::empty() =~= acc@);
            return Some((acc, cur + 1));
        } else if b == 0x5c {
            if cur + 1 >= s.len() {
                return None;
            }
            let n = s[cur + 1];
            if n == 0x75 {
                if s.len() - cur < 6 {
                    return None;
                }
                match hex4_x(s, cur + 2) {
                    None => {
                        return None;
                    },
                    Some(c1) => {
                        if 0xd800 <= c1 && c1 <= 0xdbff {
                            if s.len() - cur < 12 {
                                return None;
                            }
                            if s[cur + 6] != 0x5c || s[cur + 7] != 0x75 {
                                return None;
                            }
                            match hex4_x(s, cur + 8) {
                                None => {
                                    return None;
                                },
                                Some(c2) => {
                                    if !(0xdc00 <= c2 && c2 <= 0xdfff) {
                                        return None;
                                    }
                                    let cp: u32 = 0x10000 + (c1 - 0xd800) * 0x400 + (c2 - 0xdc00);
                                    let ghost old_acc = acc@;
                                    push_utf8(&mut acc, cp);
                                    proof {
                                        match parse_str_body(s@, cur + 12) {
                                            Some((t, e)) => {
                                                assert(old_acc + (utf8_enc(cp as int) + t)
                                                    =~= acc@ + t);
                                            },
                                            None => {},
                                        }
                                    }
                                    cur = cur + 12;
                                },
                            }
                        } else if 0xdc00 <= c1 && c1 <= 0xdfff {
                            return None;
                        } else {
                            let ghost old_acc = acc@;
                            push_utf8(&mut acc, c1);
                            proof {
                                match parse_str_body(s@, cur + 6) {
                                    Some((t, e)) => {
                                        assert(old_acc + (utf8_enc(c1 as int) + t) =~= acc@ + t);
                                    },
                                    None => {},
                                }
                            }
                            cur = cur + 6;
                        }
                    },
                }
                continue;
            }
            let ghost old_acc = acc@;
            if n == 0x22 {
                acc.push(0x22u8);
            } else if n == 0x5c {
                acc.push(0x5cu8);
            } else if n == 0x2f {
                acc.push(0x2fu8);
            } else if n == 0x6e {
                acc.push(0x0au8);
            } else if n == 0x74 {
                acc.push(0x09u8);
            } else if n == 0x72 {
                acc.push(0x0du8);
            } else if n == 0x62 {
                acc.push(0x08u8);
            } else if n == 0x66 {
                acc.push(0x0cu8);
            } else {
                return None;
            }
            proof {
                let c = esc_decode(s@[cur + 1]).unwrap();
                assert(acc@ == old_acc + seq![c]);
                match parse_str_body(s@, cur + 2) {
                    Some((t, e)) => {
                        assert(old_acc + (seq![c] + t) =~= (old_acc + seq![c]) + t);
                    },
                    None => {},
                }
            }
            cur = cur + 2;
        } else if b >= 0x20 {
            let ghost old_acc = acc@;
            acc.push(b);
            proof {
                match parse_str_body(s@, cur + 1) {
                    Some((t, e)) => {
                        assert(old_acc + (seq![s@[cur as int]] + t) =~= (old_acc + seq![s@[
                            cur as int]]) + t);
                    },
                    None => {},
                }
            }
            cur = cur + 1;
        } else {
            return None;
        }
    }
}

/// Parses one JSON value starting at `i`; leading whitespace is allowed.
#[verifier::loop_isolation(false)]
pub fn parse_value_x(s: &Vec<u8>, i: usize) -> (r: Option<(Json, usize)>)
    requires
        i <= s@.len(),
    ensures
        (r matches Some((v, e)) ==> parse_value(s@, i as int) == Some((v@, e as int)) && i < e
            <= s@.len()),
        (r is None ==> parse_value(s@, i as int) is None),
    decreases s@.len() - i, 0int,
{
    let j = skip_ws_x(s, i);
    if j >= s.len() {
        return None;
    }
    let b = s[j];
    if b == 0x7b {
        match parse_members_x(s, j + 1) {
            Some((fs, e)) => Some((Json::Obj(fs), e)),
            None => None,
        }
    } else if b == 0x5b {
        match parse_elems_x(s, j + 1) {
            Some((es, e)) => Some((Json::Arr(es), e)),
            None => None,
        }
    } else if b == 0x22 {
        match parse_str_body_x(s, j + 1) {
            Some((t, e)) => Some((Json::Str(t), e)),
            None => None,
        }
    } else if b == 0x74 {
        if s.len() - j >= 4 && s[j + 1] == 0x72 && s[j + 2] == 0x75 && s[j + 3] == 0x65 {
            Some((Json::Bool(true), j + 4))
        } else {
            None
        }
    } else if b == 0x66 {
        if s.len() - j >= 5 && s[j + 1] == 0x61 && s[j + 2] == 0x6c && s[j + 3] == 0x73 && s[j + 4]
            == 0x65 {
            Some((Json::Bool(false), j + 5))
        } else {
            None
        }
    } else if b == 0x6e {
        if s.len() - j >= 4 && s[j + 1] == 0x75 && s[j + 2] == 0x6c && s[j + 3] == 0x6c {
            Some((Json::Null, j + 4))
        } else {
            None
        }
    } else if (0x30 <= b && b <= 0x39) || b == 0x2d {
        proof {
            lemma_num_end(s@, j + 1);
        }
        let e = num_end_x(s, j);
        assert(e > j);
        let t = copy_range(s, j, e);
        if valid_num_x(&t) {
            Some((Json::Num(t), e))
        } else {
            None
        }
    } else {
        None
    }
}

/// Parses array elements up to and including the closing bracket.
#[verifier::loop_isolation(false)]
fn parse_elems_x(s: &Vec<u8>, i: usize) -> (r: Option<(Vec<Json>, usize)>)
    requires
        i <= s@.len(),
    ensures
        (r matches Some((es, e)) ==> parse_elems(s@, i as int) == Some((velems(es@, 0), e as int))
            && i < e <= s@.len()),
        (r is None ==> parse_elems(s@, i as int) is None),
    decreases s@.len() - i, 2int,
{
    let j = skip_ws_x(s, i);
    if j >= s.len() {
        return None;
    }
    if s[j] == 0x5d {
        let empty: Vec<Json> = Vec::new();
        return Some((empty, j + 1));
    }
    let mut acc: Vec<Json> = Vec::new();
    let mut cur: usize = i;
    proof {
        assert forall|rest: Seq<JsonV>| #[trigger] (velems(acc@, 0) + rest) == rest by {
            assert(velems(acc@, 0) + rest =~= rest);
        }
    }
    loop
        invariant
            i <= cur <= s@.len(),
            parse_elems(s@, i as int) == parse_items(s@, i as int),
            (parse_items(s@, cur as int) matches Some((rest, e)) ==> parse_items(s@, i as int)
                == Some((velems(acc@, 0) + rest, e))),
            (parse_items(s@, cur as int) is None ==> parse_items(s@, i as int) is None),
        decreases s@.len() - cur,
    {
        match parse_value_x(s, cur) {
            None => {
                return None;
            },
            Some((v, e)) => {
                let w = skip_ws_x(s, e);
                if w >= s.len() {
                    return None;
                }
                let ghost old_acc = acc@;
                if s[w] == 0x2c {
                    acc.push(v);
                    proof {
                        lemma_velems_push(old_acc, v);
                        match parse_items(s@, w + 1) {
                            Some((rest, e2)) => {
                                assert(velems(old_acc, 0) + (seq![vjson(v)] + rest) =~= velems(
                                    acc@, 0) + rest);
                            },
                            None => {},
                        }
                    }
                    cur = w + 1;
                } else if s[w] == 0x5d {
                    acc.push(v);
                    proof {
                        lemma_velems_push(old_acc, v);
                        assert(velems(old_acc, 0) + seq![vjson(v)] =~= velems(acc@, 0));
                    }
                    return Some((acc, w + 1));
                } else {
                    return None;
                }
            },
        }
    }
}

/// Parses object members up to and including the closing brace.
#[verifier::loop_isolation(false)]
fn parse_members_x(s: &Vec<u8>, i: usize) -> (r: Option<(Vec<(Vec<u8>, Json)>, usize)>)
    requires
        i <= s@.len(),
    ensures
        (r matches Some((fs, e)) ==> parse_members(s@, i as int) == Some((vmembers(fs@, 0),
            e as int)) && i < e <= s@.len()),
        (r is None ==> parse_members(s@, i as int) is None),
    decreases s@.len() - i, 2int,
{
    let j = skip_ws_x(s, i);
    if j >= s.len() {
        return None;
    }
    if s[j] == 0x7d {
        let empty: Vec<(Vec<u8>, Json)> = Vec::new();
        return Some((empty, j + 1));
    }
    let mut acc: Vec<(Vec<u8>, Json)> = Vec::new();
    let mut cur: usize = i;
    proof {
        assert forall|rest: Seq<(Seq<u8>, JsonV)>| #[trigger] (vmembers(acc@, 0) + rest)
            == rest by {
            assert(vmembers(acc@, 0) + rest =~= rest);
        }
    }
    loop
        invariant
            i <= cur <= s@.len(),
            parse_members(s@, i as int) == parse_fields(s@, i as int),
            (parse_fields(s@, cur as int) matches Some((rest, e)) ==> parse_fields(s@, i as int)
                == Some((vmembers(acc@, 0) + rest, e))),
            (parse_fields(s@, cur as int) is None ==> parse_fields(s@, i as int) is None),
        decreases s@.len() - cur,
    {
        let j2 = skip_ws_x(s, cur);
        if j2 >= s.len() {
            return None;
        }
        if s[j2] != 0x22 {
            return None;
        }
        match parse_str_body_x(s, j2 + 1) {
            None => {
                return None;
            },
            Some((k, e1)) => {
                let c = skip_ws_x(s, e1);
                if c >= s.len() {
                    return None;
                }
                if s[c] != 0x3a {
                    return None;
                }
                match parse_value_x(s, c + 1) {
                    None => {
                        return None;
                    },
                    Some((v, e2)) => {
                        let w = skip_ws_x(s, e2);
                        if w >= s.len() {
                            return None;
                        }
                        let ghost old_acc = acc@;
                        let ghost kv = k@;
                        let ghost vv = vjson(v);
                        if s[w] == 0x2c {
                            acc.push((k, v));
                            proof {
                                lemma_vmembers_push(old_acc, acc@[acc@.len() - 1].0, acc@[acc@.len()
                                    - 1].1);
                                match parse_fields(s@, w + 1) {
                                    Some((rest, e3)) => {
                                        assert(vmembers(old_acc, 0) + (seq![(kv, vv)] + rest)
                                            =~= vmembers(acc@, 0) + rest);
                                    },
                                    None => {},
                                }
                            }
                            cur = w + 1;
                        } else if s[w] == 0x7d {
                            acc.push((k, v));
                            proof {
                                lemma_vmembers_push(old_acc, acc@[acc@.len() - 1].0, acc@[acc@.len()
                                    - 1].1);
                                assert(vmembers(old_acc, 0) + seq![(kv, vv)] =~= vmembers(acc@, 0));
                            }
                            return Some((acc, w + 1));
                        } else {
                            return None;
                        }
                    },
                }
            },
        }
    }
}

/// Parses a whole document: one JSON value with only whitespace around it.
pub fn parse_doc_x(s: &Vec<u8>) -> (r: Option<Json>)
    ensures
        (r matches Some(v) ==> parse_doc(s@) == Some(v@)),
        (r is None ==> parse_doc(s@) is None),
{
    match parse_value_x(s, 0) {
        Some((v, e)) => {
            let w = skip_ws_x(s, e);
            if w == s.len() {
                Some(v)
            } else {
                None
            }
        },
        None => None,
    }
}


/// Shifting `ser_str_upto` by one front byte.
proof fn lemma_upto_shift(t: Seq<u8>, k: int)
    requires
        1 <= k <= t.len(),
    ensures
        ser_str_upto(t, k) == esc_encode(t[0]) + ser_str_upto(t.drop_first(), k - 1),
    decreases k,
{
    let d = t.drop_first();
    if k == 1 {
        assert(ser_str_upto(t, 0) == Seq::<u8>::empty());
        assert(ser_str_upto(d, 0) == Seq::<u8>::empty());
        assert(ser_str_upto(t, 1) =~= esc_encode(t[0]) + ser_str_upto(d, 0));
    } else {
        lemma_upto_shift(t, k - 1);
        assert(d[k - 2] == t[k - 1]);
        assert(esc_encode(t[0]) + ser_str_upto(d, k - 2) + esc_encode(d[k - 2]) =~= esc_encode(
            t[0],
        ) + (ser_str_upto(d, k - 2) + esc_encode(d[k - 2])));
    }
}

/// Front decomposition of a string body.
proof fn lemma_str_front(t: Seq<u8>)
    requires
        t.len() > 0,
    ensures
        ser_str_body(t) == esc_encode(t[0]) + ser_str_body(t.drop_first()),
{
    lemma_upto_shift(t, t.len() as int);
}

/// A run of number bytes bounded by a non-number byte lexes exactly.
proof fn lemma_num_region(s: Seq<u8>, i: int, m: int)
    requires
        0 <= i,
        0 <= m,
        i + m <= s.len(),
        forall|k: int| 0 <= k < m ==> is_num_byte(#[trigger] s[i + k]),
        i + m == s.len() || !is_num_byte(s[i + m]),
    ensures
        num_end(s, i) == i + m,
    decreases m,
{
    if m == 0 {
    } else {
        assert(is_num_byte(s[i + 0]));
        assert forall|k: int| 0 <= k < m - 1 implies is_num_byte(#[trigger] s[i + 1 + k]) by {
            assert(is_num_byte(s[i + (k + 1)]));
        }
        lemma_num_region(s, i + 1, m - 1);
    }
}

/// Digits fill the run scanned by `digits_end`.
proof fn lemma_digits_end(t: Seq<u8>, i: int)
    requires
        0 <= i <= t.len(),
    ensures
        i <= digits_end(t, i) <= t.len(),
        forall|k: int| i <= k < digits_end(t, i) ==> is_digit(#[trigger] t[k]),
    decreases t.len() - i,
{
    if i < t.len() && is_digit(t[i]) {
        lemma_digits_end(t, i + 1);
    }
}

/// A valid number lexeme starts with a digit or a minus sign and consists
/// of number bytes only.
proof fn lemma_valid_num_bytes(t: Seq<u8>)
    requires
        valid_num(t),
    ensures
        forall|k: int| 0 <= k < t.len() ==> is_num_byte(#[trigger] t[k]),
        is_digit(t[0]) || t[0] == 0x2d,
{
    let i0: int = if t[0] == 0x2d {
        1
    } else {
        0
    };
    let ie = digits_end(t, i0);
    lemma_digits_end(t, i0);
    let fe = frac_end(t, ie)->Some_0;
    if ie < t.len() && t[ie] == 0x2e {
        lemma_digits_end(t, ie + 1);
        assert(fe == digits_end(t, ie + 1));
    } else {
        assert(fe == ie);
    }
    let ee = exp_end(t, fe)->Some_0;
    if fe < t.len() && (t[fe] == 0x65 || t[fe] == 0x45) {
        let j: int = if fe + 1 < t.len() && (t[fe + 1] == 0x2b || t[fe + 1] == 0x2d) {
            fe + 2
        } else {
            fe + 1
        };
        lemma_digits_end(t, j);
        assert(ee == digits_end(t, j));
    } else {
        assert(ee == fe);
    }
    assert(ee == t.len());
    if t[0] != 0x2d {
        assert(is_digit(t[0]));
    }
}

/// The first byte of a serialized value: never whitespace and never one of
/// the closing or separating bytes.
proof fn lemma_ser_first(v: JsonV)
    requires
        wf(v),
    ensures
        ser(v).len() >= 1,
        !is_ws(ser(v)[0]),
        ser(v)[0] != 0x5d,
        ser(v)[0] != 0x7d,
        ser(v)[0] != 0x2c,
        ser(v)[0] != 0x3a,
{
    match v {
        JsonV::Null => {},
        JsonV::Bool(b) => {},
        JsonV::Num(t) => {
            lemma_valid_num_bytes(t);
            assert(ser(v)[0] == t[0]);
        },
        JsonV::Str(t) => {
            assert(ser(v)[0] == 0x22);
        },
        JsonV::Arr(es) => {
            assert(ser(v)[0] == 0x5b);
        },
        JsonV::Obj(fs) => {
            assert(ser(v)[0] == 0x7b);
        },
    }
}

/// Parsing inverts string serialization: the escaped body of `t` followed
/// by a closing quote parses back to `t`.
proof fn lemma_parse_str(s: Seq<u8>, i: int, t: Seq<u8>)
    requires
        wf_text(t),
        0 <= i,
        i + ser_str_body(t).len() + 1 <= s.len(),
        forall|k: int| 0 <= k < ser_str_body(t).len() ==> s[i + k] == ser_str_body(t)[k],
        s[i + ser_str_body(t).len()] == 0x22,
    ensures
        parse_str_body(s, i) == Some((t, i + ser_str_body(t).len() + 1)),
    decreases t.len(),
{
    if t.len() == 0 {
        assert(ser_str_body(t).len() == 0);
        assert(s[i] == 0x22);
        assert(parse_str_body(s, i) == Some((Seq::<u8>::empty(), i + 1)));
        assert(Seq::<u8>::empty() =~= t);
    } else {
        lemma_str_front(t);
        let c = t[0];
        let d = t.drop_first();
        let e = esc_encode(c);
        let body = ser_str_body(t);
        let dbody = ser_str_body(d);
        assert(body == e + dbody);
        assert(wf_text(d)) by {
            assert(forall|k: int| 0 <= k < d.len() ==> d[k] == t[k + 1]);
        }
        assert(forall|k: int| 0 <= k < dbody.len() ==> (e + dbody)[e.len() + k] == dbody[k]);
        if c == 0x22 || c == 0x5c || c == 0x0a || c == 0x09 || c == 0x0d {
            assert(e.len() == 2);
            assert(s[i] == body[0] && body[0] == 0x5c);
            assert(s[i + 1] == body[1]);
            assert(body[1] != 0x75);
            assert(esc_decode(body[1]) == Some(c));
            assert(forall|k: int| 0 <= k < dbody.len() ==> s[i + 2 + k] == dbody[k]);
            lemma_parse_str(s, i + 2, d);
            assert(seq![c] + d =~= t);
        } else {
            assert(c >= 0x20);
            assert(e.len() == 1);
            assert(s[i] == body[0] && body[0] == c);
            assert(forall|k: int| 0 <= k < dbody.len() ==> s[i + 1 + k] == dbody[k]);
            lemma_parse_str(s, i + 1, d);
            assert(seq![c] + d =~= t);
        }
    }
}


/// Elements `j` to `m` of an array rendered in tail position: each with a
/// leading comma.
pub open spec fn ser_tail_elems(es: Seq<JsonV>, j: int, m: int) -> Seq<u8>
    decreases es, 0int, m - j,
{
    if !(0 <= j && j < m && m <= es.len()) {
        Seq::empty()
    } else {
        seq![0x2cu8] + ser(es[j]) + ser_tail_elems(es, j + 1, m)
    }
}

/// Members `j` to `m` of an object rendered in tail position.
pub open spec fn ser_tail_members(fs: Seq<(Seq<u8>, JsonV)>, j: int, m: int) -> Seq<u8>
    decreases fs, 0int, m - j,
{
    if !(0 <= j && j < m && m <= fs.len()) {
        Seq::empty()
    } else {
        seq![0x2cu8] + ser_string(fs[j].0) + seq![0x3au8] + ser(fs[j].1) + ser_tail_members(
            fs,
            j + 1,
            m,
        )
    }
}

proof fn lemma_tail_elems_snoc(es: Seq<JsonV>, j: int, m: int)
    requires
        0 <= j < m,
        m <= es.len(),
    ensures
        ser_tail_elems(es, j, m) == ser_tail_elems(es, j, m - 1) + seq![0x2cu8] + ser(es[m - 1]),
    decreases m - j,
{
    if j == m - 1 {
        assert(ser_tail_elems(es, j + 1, m) =~= Seq::<u8>::empty());
        assert(ser_tail_elems(es, j, m - 1) =~= Seq::<u8>::empty());
        assert(ser_tail_elems(es, j, m) =~= ser_tail_elems(es, j, m - 1) + seq![0x2cu8] + ser(
            es[m - 1],
        ));
    } else {
        lemma_tail_elems_snoc(es, j + 1, m);
        assert(ser_tail_elems(es, j, m) =~= ser_tail_elems(es, j, m - 1) + seq![0x2cu8] + ser(
            es[m - 1],
        ));
    }
}

proof fn lemma_elems_front(es: Seq<JsonV>, m: int)
    requires
        1 <= m <= es.len(),
    ensures
        ser_elems_upto(es, m) == ser(es[0]) + ser_tail_elems(es, 1, m),
    decreases m,
{
    if m == 1 {
        assert(ser_tail_elems(es, 1, 1) =~= Seq::<u8>::empty());
        assert(ser_elems_upto(es, 1) =~= ser(es[0]) + ser_tail_elems(es, 1, 1));
    } else {
        lemma_elems_front(es, m - 1);
        lemma_tail_elems_snoc(es, 1, m);
        assert(ser_elems_upto(es, m) =~= ser(es[0]) + ser_tail_elems(es, 1, m));
    }
}

proof fn lemma_tail_members_snoc(fs: Seq<(Seq<u8>, JsonV)>, j: int, m: int)
    requires
        0 <= j < m,
        m <= fs.len(),
    ensures
        ser_tail_members(fs, j, m) == ser_tail_members(fs, j, m - 1) + seq![0x2cu8] + ser_string(
            fs[m - 1].0,
        ) + seq![0x3au8] + ser(fs[m - 1].1),
    decreases m - j,
{
    if j == m - 1 {
        assert(ser_tail_members(fs, j + 1, m) =~= Seq::<u8>::empty());
        assert(ser_tail_members(fs, j, m - 1) =~= Seq::<u8>::empty());
        assert(ser_tail_members(fs, j, m) =~= ser_tail_members(fs, j, m - 1) + seq![0x2cu8]
            + ser_string(fs[m - 1].0) + seq![0x3au8] + ser(fs[m - 1].1));
    } else {
        lemma_tail_members_snoc(fs, j + 1, m);
        assert(ser_tail_members(fs, j, m) =~= ser_tail_members(fs, j, m - 1) + seq![0x2cu8]
            + ser_string(fs[m - 1].0) + seq![0x3au8] + ser(fs[m - 1].1));
    }
}

proof fn lemma_members_front(fs: Seq<(Seq<u8>, JsonV)>, m: int)
    requires
        1 <= m <= fs.len(),
    ensures
        ser_members_upto(fs, m) == ser_string(fs[0].0) + seq![0x3au8] + ser(fs[0].1)
            + ser_tail_members(fs, 1, m),
    decreases m,
{
    if m == 1 {
        assert(ser_tail_members(fs, 1, 1) =~= Seq::<u8>::empty());
        assert(ser_members_upto(fs, 1) =~= ser_string(fs[0].0) + seq![0x3au8] + ser(fs[0].1)
            + ser_tail_members(fs, 1, 1));
    } else {
        lemma_members_front(fs, m - 1);
        lemma_tail_members_snoc(fs, 1, m);
        assert(ser_members_upto(fs, m) =~= ser_string(fs[0].0) + seq![0x3au8] + ser(fs[0].1)
            + ser_tail_members(fs, 1, m));
    }
}


/// Round-trip law, value form: wherever the bytes of `ser(v)` stand in a
/// stream, not followed directly by a number byte, the parser reads back
/// exactly `v` and stops right after them.
#[verifier::rlimit(100)]
#[verifier::spinoff_prover]
pub proof fn lemma_parse_ser(s: Seq<u8>, i: int, v: JsonV)
    requires
        wf(v),
        0 <= i,
        i + ser(v).len() <= s.len(),
        forall|k: int| 0 <= k < ser(v).len() ==> s[i + k] == ser(v)[k],
        v matches JsonV::Num(_) ==> (i + ser(v).len() == s.len() || !is_num_byte(
            s[i + ser(v).len()],
        )),
    ensures
        parse_value(s, i) == Some((v, i + ser(v).len())),
    decreases v, 0int, 0int,
{
    match v {
        JsonV::Null => {
            assert(s[i] == 0x6e && s[i + 1] == 0x75 && s[i + 2] == 0x6c && s[i + 3] == 0x6c) by {
                assert(s[i + 0] == ser(v)[0]);
                assert(s[i + 1] == ser(v)[1]);
                assert(s[i + 2] == ser(v)[2]);
                assert(s[i + 3] == ser(v)[3]);
            }
            assert(skip_ws(s, i) == i);
        },
        JsonV::Bool(b) => {
            if b {
                assert(s[i] == 0x74 && s[i + 1] == 0x72 && s[i + 2] == 0x75 && s[i + 3] == 0x65) by {
                    assert(s[i + 0] == ser(v)[0]);
                    assert(s[i + 1] == ser(v)[1]);
                    assert(s[i + 2] == ser(v)[2]);
                    assert(s[i + 3] == ser(v)[3]);
                }
            } else {
                assert(s[i] == 0x66 && s[i + 1] == 0x61 && s[i + 2] == 0x6c && s[i + 3] == 0x73
                    && s[i + 4] == 0x65) by {
                    assert(s[i + 0] == ser(v)[0]);
                    assert(s[i + 1] == ser(v)[1]);
                    assert(s[i + 2] == ser(v)[2]);
                    assert(s[i + 3] == ser(v)[3]);
                    assert(s[i + 4] == ser(v)[4]);
                }
            }
            assert(skip_ws(s, i) == i);
        },
        JsonV::Num(t) => {
            lemma_valid_num_bytes(t);
            assert(forall|k: int| 0 <= k < t.len() ==> s[i + k] == t[k]);
            assert(s[i] == t[0]) by {
                assert(s[i + 0] == ser(v)[0]);
            }
            assert(skip_ws(s, i) == i);
            assert forall|k: int| 0 <= k < t.len() implies is_num_byte(#[trigger] s[i + k]) by {
                assert(s[i + k] == t[k]);
                assert(is_num_byte(t[k]));
            }
            lemma_num_region(s, i, t.len() as int);
            assert(s.subrange(i, i + t.len()) =~= t);
        },
        JsonV::Str(t) => {
            let body = ser_str_body(t);
            assert(s[i] == 0x22) by {
                assert(s[i + 0] == ser(v)[0]);
            }
            assert(skip_ws(s, i) == i);
            assert(forall|k: int| 0 <= k < body.len() ==> s[i + 1 + k] == body[k]) by {
                assert(forall|k: int| 0 <= k < body.len() ==> ser(v)[1 + k] == body[k]);
            }
            assert(s[i + 1 + body.len()] == 0x22) by {
                assert(ser(v)[1 + body.len() as int] == 0x22);
            }
            lemma_parse_str(s, i + 1, t);
        },
        JsonV::Arr(es) => {
            let n = es.len() as int;
            assert(s[i] == 0x5b) by {
                assert(s[i + 0] == ser(v)[0]);
            }
            assert(skip_ws(s, i) == i);
            let upto = ser_elems_upto(es, n);
            assert(forall|k: int| 0 <= k < upto.len() ==> s[i + 1 + k] == upto[k]) by {
                assert(forall|k: int| 0 <= k < upto.len() ==> ser(v)[1 + k] == upto[k]);
            }
            assert(s[i + 1 + upto.len()] == 0x5d) by {
                assert(ser(v)[1 + upto.len() as int] == 0x5d);
            }
            if n == 0 {
                assert(upto.len() == 0);
                assert(s[i + 1] == 0x5d);
                assert(skip_ws(s, i + 1) == i + 1);
                assert(parse_elems(s, i + 1) == Some((Seq::<JsonV>::empty(), i + 2)));
                assert(Seq::<JsonV>::empty() =~= es);
            } else {
                lemma_elems_front(es, n);
                assert(wf(es[0]));
                lemma_ser_first(es[0]);
                let region = ser(es[0]) + ser_tail_elems(es, 1, n) + seq![0x5du8];
                assert(region =~= upto + seq![0x5du8]);
                assert(forall|k: int| 0 <= k < region.len() ==> s[i + 1 + k] == region[k]);
                assert(s[i + 1] == ser(es[0])[0]) by {
                    assert(s[i + 1 + 0] == region[0]);
                    assert(region[0] == ser(es[0])[0]);
                }
                assert(skip_ws(s, i + 1) == i + 1);
                lemma_parse_items_ser(s, i + 1, es, 0);
                assert(es.subrange(0, n) =~= es);
                assert(parse_elems(s, i + 1) == Some((es, i + 1 + region.len())));
            }
        },
        JsonV::Obj(fs) => {
            let n = fs.len() as int;
            assert(s[i] == 0x7b) by {
                assert(s[i + 0] == ser(v)[0]);
            }
            assert(skip_ws(s, i) == i);
            let upto = ser_members_upto(fs, n);
            assert(forall|k: int| 0 <= k < upto.len() ==> s[i + 1 + k] == upto[k]) by {
                assert(forall|k: int| 0 <= k < upto.len() ==> ser(v)[1 + k] == upto[k]);
            }
            assert(s[i + 1 + upto.len()] == 0x7d) by {
                assert(ser(v)[1 + upto.len() as int] == 0x7d);
            }
            if n == 0 {
                assert(upto.len() == 0);
                assert(s[i + 1] == 0x7d);
                assert(skip_ws(s, i + 1) == i + 1);
                assert(parse_members(s, i + 1) == Some((Seq::<(Seq<u8>, JsonV)>::empty(), i + 2)));
                assert(Seq::<(Seq<u8>, JsonV)>::empty() =~= fs);
            } else {
                lemma_members_front(fs, n);
                let region = ser_string(fs[0].0) + seq![0x3au8] + ser(fs[0].1) + ser_tail_members(
                    fs,
                    1,
                    n,
                ) + seq![0x7du8];
                assert(region =~= upto + seq![0x7du8]);
                assert(forall|k: int| 0 <= k < region.len() ==> s[i + 1 + k] == region[k]);
                assert(s[i + 1] == 0x22) by {
                    assert(s[i + 1 + 0] == region[0]);
                    assert(region[0] == ser_string(fs[0].0)[0]);
                    assert(ser_string(fs[0].0)[0] == 0x22);
                }
                assert(skip_ws(s, i + 1) == i + 1);
                lemma_parse_fields_ser(s, i + 1, fs, 0);
                assert(fs.subrange(0, n) =~= fs);
                assert(parse_members(s, i + 1) == Some((fs, i + 1 + region.len())));
            }
        },
    }
}

/// Round-trip law, array-tail form: one or more serialized elements joined
/// by commas and closed by a bracket parse back to exactly those elements.
proof fn lemma_parse_items_ser(s: Seq<u8>, i: int, es: Seq<JsonV>, j: int)
    requires
        forall|q: int| 0 <= q < es.len() ==> wf(#[trigger] es[q]),
        0 <= j < es.len(),
        0 <= i,
        ({
            let region = ser(es[j]) + ser_tail_elems(es, j + 1, es.len() as int) + seq![0x5du8];
            &&& i + region.len() <= s.len()
            &&& forall|k: int| 0 <= k < region.len() ==> s[i + k] == region[k]
        }),
    ensures
        parse_items(s, i) == Some(
            (
                es.subrange(j, es.len() as int),
                i + (ser(es[j]) + ser_tail_elems(es, j + 1, es.len() as int)
                    + seq![0x5du8]).len(),
            ),
        ),
    decreases es, 1int, es.len() - j,
{
    let n = es.len() as int;
    let sv = ser(es[j]);
    let tail = ser_tail_elems(es, j + 1, n);
    let region = sv + tail + seq![0x5du8];
    assert(wf(es[j]));
    assert(forall|k: int| 0 <= k < sv.len() ==> s[i + k] == sv[k]) by {
        assert(forall|k: int| 0 <= k < sv.len() ==> region[k] == sv[k]);
    }
    let after = s[i + sv.len()];
    assert(after == region[sv.len() as int]);
    if j + 1 < n {
        assert(tail[0] == 0x2c);
        assert(after == 0x2c);
    } else {
        assert(tail.len() == 0);
        assert(after == 0x5d);
    }
    lemma_parse_ser(s, i, es[j]);
    let e = i + sv.len();
    assert(!is_ws(s[e]));
    assert(skip_ws(s, e) == e);
    if j + 1 < n {
        let svn = ser(es[j + 1]);
        let tailn = ser_tail_elems(es, j + 2, n);
        let regionn = svn + tailn + seq![0x5du8];
        assert(region =~= sv + seq![0x2cu8] + regionn);
        assert(forall|k: int| 0 <= k < regionn.len() ==> s[e + 1 + k] == regionn[k]) by {
            assert(forall|k: int|
                0 <= k < regionn.len() ==> region[sv.len() + 1 + k] == regionn[k]);
        }
        lemma_parse_items_ser(s, e + 1, es, j + 1);
        assert(seq![es[j]] + es.subrange(j + 1, n) =~= es.subrange(j, n));
        assert(parse_items(s, i) == Some((es.subrange(j, n), i + region.len())));
    } else {
        assert(es.subrange(j, n) =~= seq![es[j]]);
        assert(parse_items(s, i) == Some((es.subrange(j, n), i + region.len())));
    }
}

/// Round-trip law, object-tail form: one or more serialized members joined
/// by commas and closed by a brace parse back to exactly those members.
proof fn lemma_parse_fields_ser(s: Seq<u8>, i: int, fs: Seq<(Seq<u8>, JsonV)>, j: int)
    requires
        forall|q: int| 0 <= q < fs.len() ==> wf_text((#[trigger] fs[q]).0) && wf(fs[q].1),
        0 <= j < fs.len(),
        0 <= i,
        ({
            let region = ser_string(fs[j].0) + seq![0x3au8] + ser(fs[j].1) + ser_tail_members(
                fs,
                j + 1,
                fs.len() as int,
            ) + seq![0x7du8];
            &&& i + region.len() <= s.len()
            &&& forall|k: int| 0 <= k < region.len() ==> s[i + k] == region[k]
        }),
    ensures
        parse_fields(s, i) == Some(
            (
                fs.subrange(j, fs.len() as int),
                i + (ser_string(fs[j].0) + seq![0x3au8] + ser(fs[j].1) + ser_tail_members(
                    fs,
                    j + 1,
                    fs.len() as int,
                ) + seq![0x7du8]).len(),
            ),
        ),
    decreases fs, 1int, fs.len() - j,
{
    let n = fs.len() as int;
    let key = fs[j].0;
    let kv = ser_string(key);
    let sv = ser(fs[j].1);
    let tail = ser_tail_members(fs, j + 1, n);
    let region = kv + seq![0x3au8] + sv + tail + seq![0x7du8];
    assert(wf_text(key) && wf(fs[j].1));
    let body = ser_str_body(key);
    assert(kv =~= seq![0x22u8] + body + seq![0x22u8]);
    assert(s[i] == region[0] && region[0] == 0x22);
    assert(skip_ws(s, i) == i);
    assert(forall|k: int| 0 <= k < body.len() ==> s[i + 1 + k] == body[k]) by {
        assert(forall|k: int| 0 <= k < body.len() ==> region[1 + k] == body[k]);
    }
    assert(s[i + 1 + body.len()] == 0x22) by {
        assert(region[1 + body.len() as int] == 0x22);
    }
    lemma_parse_str(s, i + 1, key);
    let e1 = i + 1 + body.len() + 1;
    assert(e1 == i + kv.len());
    assert(s[e1] == region[kv.len() as int] && region[kv.len() as int] == 0x3a);
    assert(skip_ws(s, e1) == e1);
    let c = e1;
    assert(forall|k: int| 0 <= k < sv.len() ==> s[c + 1 + k] == sv[k]) by {
        assert(forall|k: int| 0 <= k < sv.len() ==> region[kv.len() + 1 + k] == sv[k]);
    }
    let after = s[c + 1 + sv.len()];
    assert(after == region[kv.len() + 1 + sv.len() as int]);
    if j + 1 < n {
        assert(tail[0] == 0x2c);
        assert(after == 0x2c);
    } else {
        assert(tail.len() == 0);
        assert(after == 0x7d);
    }
    lemma_parse_ser(s, c + 1, fs[j].1);
    let e2 = c + 1 + sv.len();
    assert(!is_ws(s[e2]));
    assert(skip_ws(s, e2) == e2);
    if j + 1 < n {
        let kvn = ser_string(fs[j + 1].0);
        let svn = ser(fs[j + 1].1);
        let tailn = ser_tail_members(fs, j + 2, n);
        let regionn = kvn + seq![0x3au8] + svn + tailn + seq![0x7du8];
        assert(region =~= kv + seq![0x3au8] + sv + seq![0x2cu8] + regionn);
        assert(forall|k: int| 0 <= k < regionn.len() ==> s[e2 + 1 + k] == regionn[k]) by {
            assert(forall|k: int|
                0 <= k < regionn.len() ==> region[kv.len() + 1 + sv.len() + 1 + k] == regionn[k]);
        }
        lemma_parse_fields_ser(s, e2 + 1, fs, j + 1);
        assert((key, fs[j].1) == fs[j]);
        assert(seq![fs[j]] + fs.subrange(j + 1, n) =~= fs.subrange(j, n));
        assert(parse_fields(s, i) == Some((fs.subrange(j, n), i + region.len())));
    } else {
        assert((key, fs[j].1) == fs[j]);
        assert(fs.subrange(j, n) =~= seq![fs[j]]);
        assert(parse_fields(s, i) == Some((fs.subrange(j, n), i + region.len())));
    }
}

/// Round-trip law, document form: a well-formed value serialized on its own
/// parses back to exactly itself.
pub proof fn lemma_doc_round_trip(v: JsonV)
    requires
        wf(v),
    ensures
        parse_doc(ser(v)) == Some(v),
{
    let s = ser(v);
    lemma_parse_ser(s, 0, v);
    assert(skip_ws(s, s.len() as int) == s.len() as int);
}

} // verus!

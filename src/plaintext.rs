use vstd::prelude::*;

use vstd::string::StrSliceExecFns;

use crate::error::Error;

verus! {

/// The maximum number of members of an interface.
pub const MAX_DATA_ENTRIES: usize = 32;
/// The maximum length of an identifier: what fits in the data bits of a field element.
pub const MAX_IDENTIFIER_LEN: usize = 31;

/// The type of a numeric literal, written as its suffix.
#[derive(Clone, Copy, Debug, PartialEq, Eq, Structural)]
pub enum LiteralType {
    Field,
    Group,
    Scalar,
    I8,
    I16,
    I32,
    I64,
    I128,
    U8,
    U16,
    U32,
    U64,
    U128,
}

/// A literal: a boolean, or a number with its type.
#[derive(Clone, Copy, Debug, PartialEq, Eq, Structural)]
pub enum Literal {
    Boolean(bool),
    Number { ty: LiteralType, negative: bool, magnitude: u128 },
}

/// An identifier: a letter followed by letters, digits and underscores.
#[derive(Debug)]
pub struct Identifier {
    pub name: Vec<char>,
}

/// A plaintext value: a literal, or an interface of named members.
#[derive(Debug)]
pub enum Plaintext {
    Literal(Literal),
    Interface(Vec<(Identifier, Plaintext)>),
}

pub open spec fn is_letter(c: char) -> bool {
    ('a' <= c && c <= 'z') || ('A' <= c && c <= 'Z')
}

pub open spec fn is_digit(c: char) -> bool {
    '0' <= c && c <= '9'
}

pub open spec fn is_whitespace(c: char) -> bool {
    c == ' ' || c == '\t' || c == '\n' || c == '\r'
}

/// A well-formed identifier name.
pub open spec fn identifier_wf(name: Seq<char>) -> bool {
    &&& 0 < name.len() <= MAX_IDENTIFIER_LEN
    &&& is_letter(name[0])
    &&& forall|i: int| 0 < i < name.len() ==> is_letter(#[trigger] name[i]) || is_digit(name[i]) || name[i] == '_'
}

/// The largest magnitude of a number of type `ty` with the given sign.
pub open spec fn max_magnitude(ty: LiteralType, negative: bool) -> int {
    match ty {
        LiteralType::I8 => if negative { 0x80 } else { 0x7f },
        LiteralType::I16 => if negative { 0x8000 } else { 0x7fff },
        LiteralType::I32 => if negative { 0x8000_0000 } else { 0x7fff_ffff },
        LiteralType::I64 => if negative { 0x8000_0000_0000_0000 } else { 0x7fff_ffff_ffff_ffff },
        LiteralType::I128 => if negative {
            0x8000_0000_0000_0000_0000_0000_0000_0000
        } else {
            0x7fff_ffff_ffff_ffff_ffff_ffff_ffff_ffff
        },
        LiteralType::U8 => 0xff,
        LiteralType::U16 => 0xffff,
        LiteralType::U32 => 0xffff_ffff,
        LiteralType::U64 => 0xffff_ffff_ffff_ffff,
        _ => u128::MAX as int,
    }
}

/// Only signed integers may be negative.
pub open spec fn may_be_negative(ty: LiteralType) -> bool {
    match ty {
        LiteralType::I8 | LiteralType::I16 | LiteralType::I32 | LiteralType::I64 | LiteralType::I128 => true,
        _ => false,
    }
}

/// A literal whose number fits its type.
pub open spec fn literal_wf(l: Literal) -> bool {
    match l {
        Literal::Boolean(_) => true,
        Literal::Number { ty, negative, magnitude } => (!negative || may_be_negative(ty)) && magnitude
            <= max_magnitude(ty, negative),
    }
}

/// An interface's member names are distinct and there are between one and
/// `MAX_DATA_ENTRIES` of them.
pub open spec fn members_wf(members: Seq<(Identifier, Plaintext)>) -> bool {
    &&& 0 < members.len() <= MAX_DATA_ENTRIES
    &&& forall|i: int| 0 <= i < members.len() ==> identifier_wf(#[trigger] members[i].0.name@)
    &&& forall|i: int, j: int|
        0 <= i < j < members.len() ==> (#[trigger] members[i]).0.name@ != (#[trigger] members[j]).0.name@
}

/// The outermost level of a parsed plaintext is well formed.
pub open spec fn top_wf(p: Plaintext) -> bool {
    match p {
        Plaintext::Literal(l) => literal_wf(l),
        Plaintext::Interface(members) => members_wf(members@),
    }
}

/// The characters of a decimal digit.
pub open spec fn digit_char(d: nat) -> char {
    if d == 0 {
        '0'
    } else if d == 1 {
        '1'
    } else if d == 2 {
        '2'
    } else if d == 3 {
        '3'
    } else if d == 4 {
        '4'
    } else if d == 5 {
        '5'
    } else if d == 6 {
        '6'
    } else if d == 7 {
        '7'
    } else if d == 8 {
        '8'
    } else {
        '9'
    }
}

/// The decimal digits of `v`, without leading zeros.
pub open spec fn decimal(v: nat) -> Seq<char>
    decreases v,
{
    if v < 10 {
        seq![digit_char(v)]
    } else {
        decimal(v / 10).push(digit_char(v % 10))
    }
}

/// The suffix that names a literal type.
pub open spec fn suffix(ty: LiteralType) -> Seq<char> {
    match ty {
        LiteralType::Field => seq!['f', 'i', 'e', 'l', 'd'],
        LiteralType::Group => seq!['g', 'r', 'o', 'u', 'p'],
        LiteralType::Scalar => seq!['s', 'c', 'a', 'l', 'a', 'r'],
        LiteralType::I8 => seq!['i', '8'],
        LiteralType::I16 => seq!['i', '1', '6'],
        LiteralType::I32 => seq!['i', '3', '2'],
        LiteralType::I64 => seq!['i', '6', '4'],
        LiteralType::I128 => seq!['i', '1', '2', '8'],
        LiteralType::U8 => seq!['u', '8'],
        LiteralType::U16 => seq!['u', '1', '6'],
        LiteralType::U32 => seq!['u', '3', '2'],
        LiteralType::U64 => seq!['u', '6', '4'],
        LiteralType::U128 => seq!['u', '1', '2', '8'],
    }
}

/// The text of a literal.
pub open spec fn literal_text(l: Literal) -> Seq<char> {
    match l {
        Literal::Boolean(b) => if b {
            seq!['t', 'r', 'u', 'e']
        } else {
            seq!['f', 'a', 'l', 's', 'e']
        },
        Literal::Number { ty, negative, magnitude } => (if negative {
            seq!['-']
        } else {
            Seq::empty()
        }) + decimal(magnitude as nat) + suffix(ty),
    }
}

/// The first position at or after `p` that holds no whitespace.
pub open spec fn ws_end(c: Seq<char>, p: int) -> int
    decreases c.len() - p,
{
    if 0 <= p < c.len() && is_whitespace(c[p]) {
        ws_end(c, p + 1)
    } else {
        p
    }
}

pub open spec fn is_name_char(ch: char) -> bool {
    is_letter(ch) || is_digit(ch) || ch == '_'
}

/// The first position at or after `p` that holds no letter, digit or underscore.
pub open spec fn name_end(c: Seq<char>, p: int) -> int
    decreases c.len() - p,
{
    if 0 <= p < c.len() && is_name_char(c[p]) {
        name_end(c, p + 1)
    } else {
        p
    }
}

/// The end of the identifier at `p`, if one stands there.
pub open spec fn spec_identifier(c: Seq<char>, p: int) -> Option<int> {
    if 0 <= p < c.len() && is_letter(c[p]) && name_end(c, p + 1) - p <= MAX_IDENTIFIER_LEN {
        Some(name_end(c, p + 1))
    } else {
        None
    }
}

/// The first position at or after `p` that holds no decimal digit.
pub open spec fn digits_end(c: Seq<char>, p: int) -> int
    decreases c.len() - p,
{
    if 0 <= p < c.len() && is_digit(c[p]) {
        digits_end(c, p + 1)
    } else {
        p
    }
}

pub open spec fn digit_value(ch: char) -> int {
    (ch as u32) as int - 48
}

/// The number that the digits from `p` to `e` write.
pub open spec fn digits_value(c: Seq<char>, p: int, e: int) -> int
    decreases e - p,
{
    if e <= p {
        0
    } else {
        digits_value(c, p, e - 1) * 10 + digit_value(c[e - 1])
    }
}

/// The characters of `lit` stand at `p`.
pub open spec fn matches_at(c: Seq<char>, p: int, lit: Seq<char>) -> bool {
    0 <= p && p + lit.len() <= c.len() && c.subrange(p, p + lit.len()) == lit
}

/// The type suffix at `p` and its end, if one stands there.
pub open spec fn spec_suffix(c: Seq<char>, p: int) -> Option<(int, LiteralType)> {
    if matches_at(c, p, suffix(LiteralType::Field)) {
        Some((p + 5, LiteralType::Field))
    } else if matches_at(c, p, suffix(LiteralType::Group)) {
        Some((p + 5, LiteralType::Group))
    } else if matches_at(c, p, suffix(LiteralType::Scalar)) {
        Some((p + 6, LiteralType::Scalar))
    } else if matches_at(c, p, suffix(LiteralType::I8)) {
        Some((p + 2, LiteralType::I8))
    } else if matches_at(c, p, suffix(LiteralType::I16)) {
        Some((p + 3, LiteralType::I16))
    } else if matches_at(c, p, suffix(LiteralType::I32)) {
        Some((p + 3, LiteralType::I32))
    } else if matches_at(c, p, suffix(LiteralType::I64)) {
        Some((p + 3, LiteralType::I64))
    } else if matches_at(c, p, suffix(LiteralType::I128)) {
        Some((p + 4, LiteralType::I128))
    } else if matches_at(c, p, suffix(LiteralType::U8)) {
        Some((p + 2, LiteralType::U8))
    } else if matches_at(c, p, suffix(LiteralType::U16)) {
        Some((p + 3, LiteralType::U16))
    } else if matches_at(c, p, suffix(LiteralType::U32)) {
        Some((p + 3, LiteralType::U32))
    } else if matches_at(c, p, suffix(LiteralType::U64)) {
        Some((p + 3, LiteralType::U64))
    } else if matches_at(c, p, suffix(LiteralType::U128)) {
        Some((p + 4, LiteralType::U128))
    } else {
        None
    }
}

/// The literal at `p` and its end, if one stands there: `true`, `false`, or an
/// optional minus sign, decimal digits and a type suffix, with the number in the
/// range of the type.
pub open spec fn spec_literal(c: Seq<char>, p: int) -> Option<(int, Literal)> {
    if matches_at(c, p, literal_text(Literal::Boolean(true))) {
        Some((p + 4, Literal::Boolean(true)))
    } else if matches_at(c, p, literal_text(Literal::Boolean(false))) {
        Some((p + 5, Literal::Boolean(false)))
    } else {
        let negative = 0 <= p < c.len() && c[p] == '-';
        let start = if negative { p + 1 } else { p };
        let e = digits_end(c, start);
        let v = digits_value(c, start, e);
        if e == start || v > u128::MAX {
            None
        } else {
            match spec_suffix(c, e) {
                None => None,
                Some((e2, ty)) => if (negative && !may_be_negative(ty)) || v > max_magnitude(ty, negative) {
                    None
                } else {
                    Some((e2, Literal::Number { ty, negative, magnitude: v as u128 }))
                },
            }
        }
    }
}

/// The end of the plaintext at `p`, after whitespace, if one stands there: a
/// literal, or an interface `{ name: plaintext, ... }`.
pub open spec fn spec_plaintext(c: Seq<char>, p: int) -> Option<int>
    decreases c.len() - p, 1int,
{
    if p < 0 || p > c.len() {
        None
    } else {
        let q = ws_end(c, p);
        match spec_literal(c, q) {
            Some((e, _)) => Some(e),
            None => if q >= p && 0 <= q < c.len() && c[q] == '{' {
                spec_members(c, q + 1, Seq::empty())
            } else {
                None
            },
        }
    }
}

/// The end of an interface's members from `p` through its closing brace, given
/// the names of the members before: each member is a name, a colon and a
/// plaintext; members are separated by commas; names are distinct; there are at
/// most `MAX_DATA_ENTRIES` of them.
pub open spec fn spec_members(c: Seq<char>, p: int, names: Seq<Seq<char>>) -> Option<int>
    decreases c.len() - p, 0int,
{
    if p < 0 || p > c.len() {
        None
    } else {
        let name_start = ws_end(c, p);
        match spec_identifier(c, name_start) {
            None => None,
            Some(name_stop) => if name_stop < p || !(0 <= name_stop < c.len() && c[name_stop] == ':') {
                None
            } else {
                match spec_plaintext(c, name_stop + 1) {
                    None => None,
                    Some(e) => {
                        let name = c.subrange(name_start, name_stop);
                        if e <= name_stop || names.contains(name) || names.len() >= MAX_DATA_ENTRIES {
                            None
                        } else if 0 <= e < c.len() && c[e] == ',' {
                            spec_members(c, e + 1, names.push(name))
                        } else {
                            let f = ws_end(c, e);
                            if 0 <= f < c.len() && c[f] == '}' {
                                Some(f + 1)
                            } else {
                                None
                            }
                        }
                    },
                }
            },
        }
    }
}

/// The end of the literal at `p`, if one stands there.
pub open spec fn literal_end(c: Seq<char>, p: int) -> int {
    match spec_literal(c, p) {
        Some((e, _)) => e,
        None => p,
    }
}

proof fn lemma_plaintext_literal(c: Seq<char>, p: int)
    requires
        0 <= p <= c.len(),
        spec_literal(c, ws_end(c, p)) is Some,
    ensures
        spec_plaintext(c, p) == Some(literal_end(c, ws_end(c, p))),
{
}

/// The members that the interface text from `p` holds, each as its name and the
/// position where its value starts, as far as the text parses.
pub open spec fn member_entries(c: Seq<char>, p: int) -> Seq<(Seq<char>, int)>
    decreases c.len() - p,
{
    if p < 0 || p > c.len() {
        Seq::empty()
    } else {
        let name_start = ws_end(c, p);
        match spec_identifier(c, name_start) {
            None => Seq::empty(),
            Some(name_stop) => if name_stop < p || !(0 <= name_stop < c.len() && c[name_stop] == ':') {
                Seq::empty()
            } else {
                match spec_plaintext(c, name_stop + 1) {
                    None => Seq::empty(),
                    Some(e) => {
                        let head = (c.subrange(name_start, name_stop), name_stop + 1);
                        if e <= name_stop {
                            Seq::empty()
                        } else if 0 <= e < c.len() && c[e] == ',' {
                            seq![head] + member_entries(c, e + 1)
                        } else {
                            seq![head]
                        }
                    },
                }
            },
        }
    }
}

/// The members agree with the entries of the text: same names in the same order,
/// and a value that the text writes as a literal is that literal.
pub open spec fn members_match(c: Seq<char>, members: Seq<(Identifier, Plaintext)>, entries: Seq<(Seq<char>, int)>) -> bool {
    &&& members.len() == entries.len()
    &&& forall|i: int|
        0 <= i < members.len() ==> {
            &&& (#[trigger] members[i]).0.name@ == entries[i].0
            &&& match spec_literal(c, ws_end(c, entries[i].1)) {
                Some((_, l)) => members[i].1 == Plaintext::Literal(l),
                None => true,
            }
        }
}

/// The names of the members.
pub open spec fn member_names(members: Seq<(Identifier, Plaintext)>) -> Seq<Seq<char>> {
    members.map_values(|m: (Identifier, Plaintext)| m.0.name@)
}

proof fn lemma_digits_value_grows(c: Seq<char>, p: int, e: int, f: int)
    requires
        p <= e <= f <= c.len(),
        forall|i: int| p <= i < f ==> is_digit(#[trigger] c[i]),
    ensures
        digits_value(c, p, e) <= digits_value(c, p, f),
        0 <= digits_value(c, p, e),
    decreases f - p,
{
    if f > e {
        lemma_digits_value_grows(c, p, e, f - 1);
    }
    if e > p {
        lemma_digits_value_grows(c, p, e - 1, e - 1);
    }
}

/// The text of a plaintext: a literal as written, an interface as
/// `{ name: value, ... }`.
pub open spec fn text(p: Plaintext) -> Seq<char>
    decreases p, 1int, 0int,
{
    match p {
        Plaintext::Literal(l) => literal_text(l),
        Plaintext::Interface(members) => seq!['{', ' '] + members_text(p, members@.len() as int) + seq![' ', '}'],
    }
}

/// The text of the first `n` members of an interface, separated by `, `.
pub open spec fn members_text(p: Plaintext, n: int) -> Seq<char>
    decreases p, 0int, n,
{
    match p {
        Plaintext::Interface(members) => if n <= 0 || n > members@.len() {
            Seq::empty()
        } else {
            let m = members@[n - 1];
            members_text(p, n - 1) + (if n > 1 { seq![',', ' '] } else { Seq::empty() }) + m.0.name@ + seq![':', ' ']
                + text(m.1)
        },
        Plaintext::Literal(_) => Seq::empty(),
    }
}

fn digit_char_exec(d: u128) -> (c: char)
    requires
        d < 10,
    ensures
        c == digit_char(d as nat),
{
    if d == 0 {
        '0'
    } else if d == 1 {
        '1'
    } else if d == 2 {
        '2'
    } else if d == 3 {
        '3'
    } else if d == 4 {
        '4'
    } else if d == 5 {
        '5'
    } else if d == 6 {
        '6'
    } else if d == 7 {
        '7'
    } else if d == 8 {
        '8'
    } else {
        '9'
    }
}

/// Appends the decimal digits of `v`.
fn push_decimal(v: u128, out: &mut Vec<char>)
    ensures
        final(out)@ == old(out)@ + decimal(v as nat),
    decreases v,
{
    if v >= 10 {
        push_decimal(v / 10, out);
    }
    out.push(digit_char_exec(v % 10));
    proof {
        assert(final(out)@ =~= old(out)@ + decimal(v as nat)) by {
            if v >= 10 {
                assert(decimal(v as nat) == decimal((v / 10) as nat).push(digit_char((v % 10) as nat)));
            }
        }
    }
}

/// Appends the characters of `s`.
fn push_all(out: &mut Vec<char>, chars: &[char])
    ensures
        final(out)@ == old(out)@ + chars@,
{
    let mut i: usize = 0;
    while i < chars.len()
        invariant
            i <= chars@.len(),
            out@ == old(out)@ + chars@.take(i as int),
        decreases chars@.len() - i,
    {
        out.push(chars[i]);
        assert(out@ =~= old(out)@ + chars@.take(i as int + 1));
        i += 1;
    }
    assert(chars@.take(i as int) =~= chars@);
}

/// Appends the suffix of a literal type.
fn push_suffix(ty: LiteralType, out: &mut Vec<char>)
    ensures
        final(out)@ == old(out)@ + suffix(ty),
{
    match ty {
        LiteralType::Field => {
            let a = ['f', 'i', 'e', 'l', 'd'];
            push_all(out, &a);
            assert(a@ =~= suffix(ty));
        },
        LiteralType::Group => {
            let a = ['g', 'r', 'o', 'u', 'p'];
            push_all(out, &a);
            assert(a@ =~= suffix(ty));
        },
        LiteralType::Scalar => {
            let a = ['s', 'c', 'a', 'l', 'a', 'r'];
            push_all(out, &a);
            assert(a@ =~= suffix(ty));
        },
        LiteralType::I8 => {
            let a = ['i', '8'];
            push_all(out, &a);
            assert(a@ =~= suffix(ty));
        },
        LiteralType::I16 => {
            let a = ['i', '1', '6'];
            push_all(out, &a);
            assert(a@ =~= suffix(ty));
        },
        LiteralType::I32 => {
            let a = ['i', '3', '2'];
            push_all(out, &a);
            assert(a@ =~= suffix(ty));
        },
        LiteralType::I64 => {
            let a = ['i', '6', '4'];
            push_all(out, &a);
            assert(a@ =~= suffix(ty));
        },
        LiteralType::I128 => {
            let a = ['i', '1', '2', '8'];
            push_all(out, &a);
            assert(a@ =~= suffix(ty));
        },
        LiteralType::U8 => {
            let a = ['u', '8'];
            push_all(out, &a);
            assert(a@ =~= suffix(ty));
        },
        LiteralType::U16 => {
            let a = ['u', '1', '6'];
            push_all(out, &a);
            assert(a@ =~= suffix(ty));
        },
        LiteralType::U32 => {
            let a = ['u', '3', '2'];
            push_all(out, &a);
            assert(a@ =~= suffix(ty));
        },
        LiteralType::U64 => {
            let a = ['u', '6', '4'];
            push_all(out, &a);
            assert(a@ =~= suffix(ty));
        },
        LiteralType::U128 => {
            let a = ['u', '1', '2', '8'];
            push_all(out, &a);
            assert(a@ =~= suffix(ty));
        },
    }
}

impl Literal {
    /// Appends the text of the literal.
    pub fn write_text(&self, out: &mut Vec<char>)
        ensures
            final(out)@ == old(out)@ + literal_text(*self),
    {
        match self {
            Literal::Boolean(b) => {
                if *b {
                    let a = ['t', 'r', 'u', 'e'];
                    push_all(out, &a);
                    assert(a@ =~= literal_text(*self));
                } else {
                    let a = ['f', 'a', 'l', 's', 'e'];
                    push_all(out, &a);
                    assert(a@ =~= literal_text(*self));
                }
            },
            Literal::Number { ty, negative, magnitude } => {
                let ghost start = out@;
                if *negative {
                    out.push('-');
                }
                push_decimal(*magnitude, out);
                push_suffix(*ty, out);
                assert(out@ =~= start + literal_text(*self));
            },
        }
    }
}

/// Returns the characters of `s`.
fn chars_of(s: &str) -> (r: Vec<char>)
    ensures
        r@ == s@,
{
    let n = s.unicode_len();
    let mut v: Vec<char> = Vec::new();
    let mut i: usize = 0;
    while i < n
        invariant
            n == s@.len(),
            i <= n,
            v@ == s@.take(i as int),
        decreases n - i,
    {
        v.push(s.get_char(i));
        assert(v@ =~= s@.take(i as int + 1));
        i += 1;
    }
    assert(s@.take(n as int) =~= s@);
    v
}

/// Returns the first position at or after `pos` that holds no whitespace.
fn skip_whitespace(c: &Vec<char>, pos: usize) -> (r: usize)
    requires
        pos <= c@.len(),
    ensures
        pos <= r <= c@.len(),
        r == ws_end(c@, pos as int),
{
    let mut p = pos;
    while p < c.len() && (c[p] == ' ' || c[p] == '\t' || c[p] == '\n' || c[p] == '\r')
        invariant
            pos <= p <= c@.len(),
            ws_end(c@, pos as int) == ws_end(c@, p as int),
        decreases c@.len() - p,
    {
        p += 1;
    }
    p
}

/// Returns the position after the characters of `lit`, if they stand at `pos`.
fn match_at(c: &Vec<char>, pos: usize, lit: &[char]) -> (r: Option<usize>)
    requires
        pos <= c@.len(),
    ensures
        matches_at(c@, pos as int, lit@) ==> r == Some((pos + lit@.len()) as usize),
        !matches_at(c@, pos as int, lit@) ==> r is None,
{
    let n = lit.len();
    let m = c.len();
    if n > m - pos {
        return None;
    }
    let mut i: usize = 0;
    while i < n
        invariant
            n == lit@.len(),
            m == c@.len(),
            pos + n <= m,
            i <= n,
            forall|j: int| 0 <= j < i ==> c@[pos + j] == lit@[j],
        decreases n - i,
    {
        if c[pos + i] != lit[i] {
            assert(c@.subrange(pos as int, pos + n)[i as int] != lit@[i as int]);
            return None;
        }
        i += 1;
    }
    assert(c@.subrange(pos as int, pos + n) =~= lit@);
    Some(pos + n)
}

fn is_letter_exec(ch: char) -> (r: bool)
    ensures
        r == is_letter(ch),
{
    ('a' <= ch && ch <= 'z') || ('A' <= ch && ch <= 'Z')
}

fn is_digit_exec(ch: char) -> (r: bool)
    ensures
        r == is_digit(ch),
{
    '0' <= ch && ch <= '9'
}

/// Parses an identifier at `pos`.
fn parse_identifier(c: &Vec<char>, pos: usize) -> (r: Option<(usize, Identifier)>)
    requires
        pos <= c@.len(),
    ensures
        match spec_identifier(c@, pos as int) {
            Some(e) => r matches Some((e2, id)) && e2 == e && id.name@ == c@.subrange(pos as int, e)
                && identifier_wf(id.name@),
            None => r is None,
        },
        r matches Some((e, id)) ==> pos < e <= c@.len() && identifier_wf(id.name@),
{
    if pos >= c.len() || !is_letter_exec(c[pos]) {
        return None;
    }
    let mut name: Vec<char> = Vec::new();
    name.push(c[pos]);
    let mut p = pos + 1;
    while p < c.len() && (is_letter_exec(c[p]) || is_digit_exec(c[p]) || c[p] == '_')
        invariant
            pos < p <= c@.len(),
            name@ == c@.subrange(pos as int, p as int),
            is_letter(name@[0]),
            name_end(c@, pos + 1) == name_end(c@, p as int),
            forall|i: int| 0 < i < name@.len() ==> is_letter(#[trigger] name@[i]) || is_digit(name@[i]) || name@[i] == '_',
        decreases c@.len() - p,
    {
        name.push(c[p]);
        p += 1;
        assert(name@ =~= c@.subrange(pos as int, p as int));
    }
    if name.len() > MAX_IDENTIFIER_LEN {
        return None;
    }
    Some((p, Identifier { name }))
}

fn max_magnitude_exec(ty: LiteralType, negative: bool) -> (r: u128)
    ensures
        r == max_magnitude(ty, negative),
{
    match ty {
        LiteralType::I8 => if negative { 0x80 } else { 0x7f },
        LiteralType::I16 => if negative { 0x8000 } else { 0x7fff },
        LiteralType::I32 => if negative { 0x8000_0000 } else { 0x7fff_ffff },
        LiteralType::I64 => if negative { 0x8000_0000_0000_0000 } else { 0x7fff_ffff_ffff_ffff },
        LiteralType::I128 => if negative {
            0x8000_0000_0000_0000_0000_0000_0000_0000
        } else {
            0x7fff_ffff_ffff_ffff_ffff_ffff_ffff_ffff
        },
        LiteralType::U8 => 0xff,
        LiteralType::U16 => 0xffff,
        LiteralType::U32 => 0xffff_ffff,
        LiteralType::U64 => 0xffff_ffff_ffff_ffff,
        _ => u128::MAX,
    }
}

/// Parses the type suffix at `pos`.
fn parse_suffix(c: &Vec<char>, pos: usize) -> (r: Option<(usize, LiteralType)>)
    requires
        pos <= c@.len(),
    ensures
        match spec_suffix(c@, pos as int) {
            Some((e, ty)) => r == Some((e as usize, ty)) && pos < e <= c@.len(),
            None => r is None,
        },
{
    let a = ['f', 'i', 'e', 'l', 'd'];
    assert(a@ =~= suffix(LiteralType::Field));
    if let Some(e) = match_at(c, pos, &a) {
        return Some((e, LiteralType::Field));
    }
    let a = ['g', 'r', 'o', 'u', 'p'];
    assert(a@ =~= suffix(LiteralType::Group));
    if let Some(e) = match_at(c, pos, &a) {
        return Some((e, LiteralType::Group));
    }
    let a = ['s', 'c', 'a', 'l', 'a', 'r'];
    assert(a@ =~= suffix(LiteralType::Scalar));
    if let Some(e) = match_at(c, pos, &a) {
        return Some((e, LiteralType::Scalar));
    }
    let a = ['i', '8'];
    assert(a@ =~= suffix(LiteralType::I8));
    if let Some(e) = match_at(c, pos, &a) {
        return Some((e, LiteralType::I8));
    }
    let a = ['i', '1', '6'];
    assert(a@ =~= suffix(LiteralType::I16));
    if let Some(e) = match_at(c, pos, &a) {
        return Some((e, LiteralType::I16));
    }
    let a = ['i', '3', '2'];
    assert(a@ =~= suffix(LiteralType::I32));
    if let Some(e) = match_at(c, pos, &a) {
        return Some((e, LiteralType::I32));
    }
    let a = ['i', '6', '4'];
    assert(a@ =~= suffix(LiteralType::I64));
    if let Some(e) = match_at(c, pos, &a) {
        return Some((e, LiteralType::I64));
    }
    let a = ['i', '1', '2', '8'];
    assert(a@ =~= suffix(LiteralType::I128));
    if let Some(e) = match_at(c, pos, &a) {
        return Some((e, LiteralType::I128));
    }
    let a = ['u', '8'];
    assert(a@ =~= suffix(LiteralType::U8));
    if let Some(e) = match_at(c, pos, &a) {
        return Some((e, LiteralType::U8));
    }
    let a = ['u', '1', '6'];
    assert(a@ =~= suffix(LiteralType::U16));
    if let Some(e) = match_at(c, pos, &a) {
        return Some((e, LiteralType::U16));
    }
    let a = ['u', '3', '2'];
    assert(a@ =~= suffix(LiteralType::U32));
    if let Some(e) = match_at(c, pos, &a) {
        return Some((e, LiteralType::U32));
    }
    let a = ['u', '6', '4'];
    assert(a@ =~= suffix(LiteralType::U64));
    if let Some(e) = match_at(c, pos, &a) {
        return Some((e, LiteralType::U64));
    }
    let a = ['u', '1', '2', '8'];
    assert(a@ =~= suffix(LiteralType::U128));
    if let Some(e) = match_at(c, pos, &a) {
        return Some((e, LiteralType::U128));
    }
    None
}

/// Parses a literal at `pos`.
fn parse_literal(c: &Vec<char>, pos: usize) -> (r: Option<(usize, Literal)>)
    requires
        pos <= c@.len(),
    ensures
        match spec_literal(c@, pos as int) {
            Some((e, l)) => r == Some((e as usize, l)) && pos < e <= c@.len(),
            None => r is None,
        },
        r matches Some((e, l)) ==> pos < e <= c@.len() && literal_wf(l),
{
    let n = c.len();
    let t = ['t', 'r', 'u', 'e'];
    assert(t@ =~= literal_text(Literal::Boolean(true)));
    assert(t@.len() == 4);
    if let Some(e) = match_at(c, pos, &t) {
        assert(matches_at(c@, pos as int, t@));
        assert(pos + 4 <= n);
        return Some((e, Literal::Boolean(true)));
    }
    let f = ['f', 'a', 'l', 's', 'e'];
    assert(f@ =~= literal_text(Literal::Boolean(false)));
    assert(f@.len() == 5);
    if let Some(e) = match_at(c, pos, &f) {
        assert(matches_at(c@, pos as int, f@));
        assert(pos + 5 <= n);
        return Some((e, Literal::Boolean(false)));
    }
    let negative = pos < c.len() && c[pos] == '-';
    let start = if negative {
        pos + 1
    } else {
        pos
    };
    let mut p = start;
    let mut magnitude: u128 = 0;
    while p < c.len() && is_digit_exec(c[p])
        invariant
            start <= p <= c@.len(),
            !matches_at(c@, pos as int, literal_text(Literal::Boolean(true))),
            !matches_at(c@, pos as int, literal_text(Literal::Boolean(false))),
            negative == (pos < c@.len() && c@[pos as int] == '-'),
            start == if negative { pos + 1 } else { pos as int },
            digits_end(c@, start as int) == digits_end(c@, p as int),
            magnitude == digits_value(c@, start as int, p as int),
            forall|i: int| start <= i < p ==> is_digit(#[trigger] c@[i]),
        decreases c@.len() - p,
    {
        let d = (c[p] as u32 - '0' as u32) as u128;
        assert(d == digit_value(c@[p as int]));
        if magnitude > (u128::MAX - d) / 10 {
            proof {
                assert(digits_value(c@, start as int, p + 1) > u128::MAX) by (nonlinear_arith)
                    requires
                        digits_value(c@, start as int, p + 1) == magnitude * 10 + d,
                        magnitude > (u128::MAX - d) / 10,
                        d <= 9,
                ;
                assert(digits_end(c@, p as int + 1) == digits_end(c@, start as int));
                lemma_digits_end_digits(c@, p as int + 1);
                let f = digits_end(c@, start as int);
                assert forall|i: int| start <= i < f implies is_digit(#[trigger] c@[i]) by {
                    if i > p {
                        assert(p + 1 <= i < digits_end(c@, p as int + 1));
                    }
                }
                lemma_digits_value_grows(c@, start as int, p + 1, f);
                assert(f > start);
                assert(digits_value(c@, start as int, f) > u128::MAX);
            }
            return None;
        }
        magnitude = magnitude * 10 + d;
        p += 1;
    }
    if p == start {
        return None;
    }
    match parse_suffix(c, p) {
        None => None,
        Some((e, ty)) => {
            let signed = match ty {
                LiteralType::I8 | LiteralType::I16 | LiteralType::I32 | LiteralType::I64 | LiteralType::I128 => true,
                _ => false,
            };
            if negative && !signed {
                return None;
            }
            if magnitude > max_magnitude_exec(ty, negative) {
                return None;
            }
            Some((e, Literal::Number { ty, negative, magnitude }))
        },
    }
}

/// Every position between `p` and the end of its digits holds a digit.
proof fn lemma_digits_end_digits(c: Seq<char>, p: int)
    requires
        0 <= p <= c.len(),
    ensures
        p <= digits_end(c, p) <= c.len(),
        forall|i: int| p <= i < digits_end(c, p) ==> is_digit(#[trigger] c[i]),
    decreases c.len() - p,
{
    if p < c.len() && is_digit(c[p]) {
        lemma_digits_end_digits(c, p + 1);
    }
}

/// Returns `true` if the two names are the same.
fn same_name(a: &Vec<char>, b: &Vec<char>) -> (r: bool)
    ensures
        r == (a@ == b@),
{
    if a.len() != b.len() {
        return false;
    }
    let mut i: usize = 0;
    while i < a.len()
        invariant
            a@.len() == b@.len(),
            i <= a@.len(),
            forall|j: int| 0 <= j < i ==> a@[j] == b@[j],
        decreases a@.len() - i,
    {
        if a[i] != b[i] {
            return false;
        }
        i += 1;
    }
    assert(a@ =~= b@);
    true
}

/// Returns `true` if some earlier member has the name `name`.
fn name_taken(members: &Vec<(Identifier, Plaintext)>, name: &Vec<char>) -> (r: bool)
    ensures
        r == exists|i: int| 0 <= i < members@.len() && (#[trigger] members@[i]).0.name@ == name@,
{
    let mut i: usize = 0;
    while i < members.len()
        invariant
            i <= members@.len(),
            forall|j: int| 0 <= j < i ==> (#[trigger] members@[j]).0.name@ != name@,
        decreases members@.len() - i,
    {
        if same_name(&members[i].0.name, name) {
            return true;
        }
        i += 1;
    }
    false
}

/// Parses a plaintext at `pos`, after whitespace.
fn parse_plaintext(c: &Vec<char>, pos: usize) -> (r: Option<(usize, Plaintext)>)
    requires
        pos <= c@.len(),
    ensures
        match spec_plaintext(c@, pos as int) {
            Some(e) => r matches Some((e2, p)) && e2 == e && top_wf(p),
            None => r is None,
        },
        match spec_literal(c@, ws_end(c@, pos as int)) {
            Some((_, l)) => r matches Some((_, Plaintext::Literal(l2))) && l2 == l,
            None => true,
        },
        r matches Some((e, _)) ==> pos < e <= c@.len(),
        r matches Some((_, Plaintext::Interface(ms))) ==> members_match(c@, ms@, member_entries(c@, ws_end(c@, pos as int) + 1)),
    decreases c@.len() - pos,
{
    let n = c.len();
    let q = skip_whitespace(c, pos);
    let literal = parse_literal(c, q);
    if let Some((e, l)) = literal {
        assert(literal_end(c@, q as int) == e);
        proof {
            lemma_plaintext_literal(c@, pos as int);
        }
        assert(spec_plaintext(c@, pos as int) == Some(e as int));
        return Some((e, Plaintext::Literal(l)));
    }
    if q >= c.len() || c[q] != '{' {
        return None;
    }
    let ghost whole = spec_members(c@, q + 1, Seq::empty());
    let ghost all_entries = member_entries(c@, q + 1);
    let ghost mut done: Seq<(Seq<char>, int)> = Seq::empty();
    assert(spec_plaintext(c@, pos as int) == whole);
    let mut members: Vec<(Identifier, Plaintext)> = Vec::new();
    let mut p = q + 1;
    let mut more = true;
    assert(member_names(members@) =~= Seq::<Seq<char>>::empty());
    while more
        invariant
            pos < p <= c@.len(),
            members@.len() <= MAX_DATA_ENTRIES,
            forall|i: int| 0 <= i < members@.len() ==> identifier_wf(#[trigger] members@[i].0.name@),
            forall|i: int, j: int|
                0 <= i < j < members@.len() ==> (#[trigger] members@[i]).0.name@ != (#[trigger] members@[j]).0.name@,
            !more ==> members@.len() > 0,
            whole == spec_plaintext(c@, pos as int),
            spec_literal(c@, ws_end(c@, pos as int)) is None,
            more ==> whole == spec_members(c@, p as int, member_names(members@)),
            q == ws_end(c@, pos as int),
            all_entries == member_entries(c@, q + 1),
            more ==> all_entries == done + member_entries(c@, p as int),
            !more ==> all_entries == done,
            members_match(c@, members@, done),
            !more ==> whole == (if 0 <= ws_end(c@, p as int) < c@.len() && c@[ws_end(c@, p as int)] == '}' {
                Some(ws_end(c@, p as int) + 1)
            } else {
                None::<int>
            }),
        decreases c@.len() - p + (if more { 1int } else { 0int }),
    {
        let ghost names = member_names(members@);
        let name_start = skip_whitespace(c, p);
        let (name_stop, name) = match parse_identifier(c, name_start) {
            None => {
                return None;
            },
            Some(x) => x,
        };
        if name_stop >= c.len() || c[name_stop] != ':' {
            return None;
        }
        let (e, value) = match parse_plaintext(c, name_stop + 1) {
            None => {
                return None;
            },
            Some(x) => x,
        };
        if name_taken(&members, &name.name) {
            proof {
                let i = choose|i: int| 0 <= i < members@.len() && (#[trigger] members@[i]).0.name@ == name.name@;
                assert(names[i] == name.name@);
            }
            return None;
        }
        if members.len() >= MAX_DATA_ENTRIES {
            return None;
        }
        proof {
            assert(!names.contains(name.name@)) by {
                if names.contains(name.name@) {
                    let i = choose|i: int| 0 <= i < names.len() && names[i] == name.name@;
                    assert(members@[i].0.name@ == name.name@);
                }
            }
        }
        let ghost nm = name.name@;
        let ghost before = members@;
        let ghost head = (nm, name_stop as int + 1);
        let ghost old_done = done;
        members.push((name, value));
        proof {
            assert(member_entries(c@, p as int) == if 0 <= e < c@.len() && c@[e as int] == ',' {
                seq![head] + member_entries(c@, e as int + 1)
            } else {
                seq![head]
            });
            done = done.push(head);
            if 0 <= e < c@.len() && c@[e as int] == ',' {
                assert(old_done + (seq![head] + member_entries(c@, e as int + 1)) =~= done + member_entries(
                    c@,
                    e as int + 1,
                ));
            } else {
                assert(old_done + seq![head] =~= done);
            }
            assert forall|i: int| 0 <= i < members@.len() implies {
                &&& (#[trigger] members@[i]).0.name@ == done[i].0
                &&& match spec_literal(c@, ws_end(c@, done[i].1)) {
                    Some((_, l)) => members@[i].1 == Plaintext::Literal(l),
                    None => true,
                }
            } by {
                if i < before.len() {
                    assert(members@[i] == before[i]);
                    assert(done[i] == old_done[i]);
                }
            }
            assert(member_names(members@) =~= names.push(nm));
            assert forall|i: int, j: int|
                0 <= i < j < members@.len() implies (#[trigger] members@[i]).0.name@ != (#[trigger] members@[j]).0.name@ by {
                if j == before.len() {
                    assert(members@[i] == before[i]);
                    assert(names[i] == before[i].0.name@);
                }
            }
            assert forall|i: int| 0 <= i < members@.len() implies identifier_wf(#[trigger] members@[i].0.name@) by {
                if i < before.len() {
                    assert(members@[i] == before[i]);
                }
            }
        }
        p = e;
        if p < c.len() && c[p] == ',' {
            p += 1;
        } else {
            more = false;
        }
    }
    let p = skip_whitespace(c, p);
    if p < c.len() && c[p] == '}' {
        Some((p + 1, Plaintext::Interface(members)))
    } else {
        None
    }
}

impl Plaintext {
    /// Appends the text of the plaintext: a literal as written, an interface as
    /// `{ name: value, ... }`.
    pub fn write_text(&self, out: &mut Vec<char>)
        ensures
            final(out)@ == old(out)@ + text(*self),
        decreases self,
    {
        match self {
            Plaintext::Literal(l) => l.write_text(out),
            Plaintext::Interface(members) => {
                let ghost start = out@;
                push_all(out, &['{', ' ']);
                let mut i: usize = 0;
                assert(out@ =~= start + seq!['{', ' '] + members_text(*self, 0));
                while i < members.len()
                    invariant
                        i <= members@.len(),
                        *self == Plaintext::Interface(*members),
                        out@ == start + seq!['{', ' '] + members_text(*self, i as int),
                        forall|j: int| 0 <= j < members@.len() ==> decreases_to!(*self => #[trigger] members@[j].1),
                    decreases members@.len() - i,
                {
                    let ghost before = out@;
                    if i > 0 {
                        push_all(out, &[',', ' ']);
                    }
                    let member = &members[i];
                    push_all(out, member.0.name.as_slice());
                    push_all(out, &[':', ' ']);
                    assert(decreases_to!(*self => members@[i as int].1));
                    member.1.write_text(out);
                    proof {
                        let m = members@[i as int];
                        assert(members_text(*self, i as int + 1) == members_text(*self, i as int) + (if i + 1 > 1 {
                            seq![',', ' ']
                        } else {
                            Seq::empty()
                        }) + m.0.name@ + seq![':', ' '] + text(m.1));
                        assert(out@ =~= start + seq!['{', ' '] + members_text(*self, i as int + 1));
                    }
                    i += 1;
                }
                push_all(out, &[' ', '}']);
                assert(out@ =~= start + text(*self));
            },
        }
    }

    /// Returns the text of the plaintext.
    pub fn to_string(&self) -> (r: String)
        ensures
            r@ == text(*self),
    {
        let mut out: Vec<char> = Vec::new();
        self.write_text(&mut out);
        assert(out@ =~= Seq::<char>::empty() + out@);
        crate::interop::string_from_chars(&out)
    }

    /// Parses a plaintext that spans the whole string.
    pub fn from_str(string: &str) -> (r: Result<Plaintext, Error>)
        ensures
            r is Ok <==> spec_plaintext(string@, 0) == Some(string@.len() as int),
            r matches Ok(p) ==> top_wf(p),
            match spec_literal(string@, ws_end(string@, 0)) {
                Some((_, l)) => r is Ok ==> r == Ok::<Plaintext, Error>(Plaintext::Literal(l)),
                None => true,
            },
            r matches Ok(Plaintext::Interface(ms)) ==> members_match(
                string@,
                ms@,
                member_entries(string@, ws_end(string@, 0) + 1),
            ),
            r matches Err(e) ==> e == Error::Parse,
    {
        match Self::parse(string) {
            Ok((rest, p)) => {
                if rest.unicode_len() == 0 {
                    Ok(p)
                } else {
                    Err(Error::Parse)
                }
            },
            Err(e) => Err(e),
        }
    }

    /// Parses a plaintext from the start of the string, after whitespace, and
    /// returns what remains of the string with it.
    pub fn parse(string: &str) -> (r: Result<(&str, Plaintext), Error>)
        ensures
            match spec_plaintext(string@, 0) {
                Some(e) => 0 < e <= string@.len() && (r matches Ok((rest, p)) && rest@ == string@.subrange(
                    e,
                    string@.len() as int,
                ) && top_wf(p)),
                None => r == Err::<(&str, Plaintext), Error>(Error::Parse),
            },
            match spec_literal(string@, ws_end(string@, 0)) {
                Some((_, l)) => r matches Ok((_, Plaintext::Literal(l2))) && l2 == l,
                None => true,
            },
            r matches Ok((_, Plaintext::Interface(ms))) ==> members_match(
                string@,
                ms@,
                member_entries(string@, ws_end(string@, 0) + 1),
            ),
    {
        let c = chars_of(string);
        match parse_plaintext(&c, 0) {
            Some((e, p)) => {
                let rest = string.substring_char(e, c.len());
                Ok((rest, p))
            },
            None => Err(Error::Parse),
        }
    }
}

} // verus!

//! The rule persistence format: a structured text document mapping executable
//! paths to actions, in a JSON-shaped syntax.
//!
//! A document looks like
//! `{"/usr/bin/game": {"SwitchToProfile": {"profile_name": "gaming"}}}`,
//! with arbitrary whitespace between tokens and the usual backslash escapes
//! inside strings.  The grammar below is the format's definition: the
//! specification parser [`p_document`] says which documents are valid and
//! which mapping each one denotes, the specification serializer
//! [`ser_document`] says what a saved table looks like, and
//! [`lemma_render_parse_round_trip`] proves that saving and re-reading a
//! table yields exactly its rule mapping.

use vstd::prelude::*;

use crate::rules::ActionModel;

verus! {

// ---------------------------------------------------------------------------
// Characters
// ---------------------------------------------------------------------------
/// Whitespace accepted between tokens.
pub open spec fn is_ws(c: char) -> bool {
    c == ' ' || c == '\n' || c == '\t' || c == '\r'
}

/// Decimal digits.
pub open spec fn is_digit(c: char) -> bool {
    c == '0' || c == '1' || c == '2' || c == '3' || c == '4' || c == '5' || c == '6' || c == '7'
        || c == '8' || c == '9'
}

/// The numeric value of a decimal digit.
pub open spec fn digit_val(c: char) -> nat {
    if c == '0' {
        0
    } else if c == '1' {
        1
    } else if c == '2' {
        2
    } else if c == '3' {
        3
    } else if c == '4' {
        4
    } else if c == '5' {
        5
    } else if c == '6' {
        6
    } else if c == '7' {
        7
    } else if c == '8' {
        8
    } else {
        9
    }
}

/// The decimal digit with a given value.
pub open spec fn digit_char(d: nat) -> char {
    if d == 0 {
        '0'
    } else if d == 1 {
        '1'
    } else if d == 2 {
        '2'
    } else if d == 3 {
        '3'
    } else if d == 4 {
        '4'
    } else if d == 5 {
        '5'
    } else if d == 6 {
        '6'
    } else if d == 7 {
        '7'
    } else if d == 8 {
        '8'
    } else {
        '9'
    }
}

/// The character a backslash escape denotes, if the escape is known.
pub open spec fn unescape_char(c: char) -> Option<char> {
    if c == '"' {
        Some('"')
    } else if c == '\\' {
        Some('\\')
    } else if c == '/' {
        Some('/')
    } else if c == 'n' {
        Some('\n')
    } else if c == 't' {
        Some('\t')
    } else if c == 'r' {
        Some('\r')
    } else if c == 'b' {
        Some('\u{0008}')
    } else if c == 'f' {
        Some('\u{000C}')
    } else {
        None
    }
}

// ---------------------------------------------------------------------------
// Specification parser.  Each function takes the remaining input and returns
// the parsed value together with the input left over, or `None` on a syntax
// error.
// ---------------------------------------------------------------------------
/// The input with its leading whitespace removed.
pub open spec fn skip_ws(s: Seq<char>) -> Seq<char>
    decreases s.len(),
{
    if s.len() > 0 && is_ws(s[0]) {
        skip_ws(s.drop_first())
    } else {
        s
    }
}

/// Match one expected character.
pub open spec fn p_char(s: Seq<char>, c: char) -> Option<Seq<char>> {
    if s.len() > 0 && s[0] == c {
        Some(s.drop_first())
    } else {
        None
    }
}

/// Match an expected literal.
pub open spec fn p_lit(s: Seq<char>, lit: Seq<char>) -> Option<Seq<char>> {
    if lit.is_prefix_of(s) {
        Some(s.skip(lit.len() as int))
    } else {
        None
    }
}

/// The body of a string literal, after its opening quote: everything up to
/// the closing quote, with escapes decoded.  Raw characters other than the
/// quote and the backslash stand for themselves.
pub open spec fn p_string_body(s: Seq<char>) -> Option<(Seq<char>, Seq<char>)>
    decreases s.len(),
{
    if s.len() == 0 {
        None
    } else if s[0] == '"' {
        Some((Seq::empty(), s.drop_first()))
    } else if s[0] == '\\' {
        if s.len() >= 2 {
            match unescape_char(s[1]) {
                Some(c) => match p_string_body(s.skip(2)) {
                    Some(vr) => Some((seq![c] + vr.0, vr.1)),
                    None => None,
                },
                None => None,
            }
        } else {
            None
        }
    } else {
        match p_string_body(s.drop_first()) {
            Some(vr) => Some((seq![s[0]] + vr.0, vr.1)),
            None => None,
        }
    }
}

/// A quoted string literal.
pub open spec fn p_string(s: Seq<char>) -> Option<(Seq<char>, Seq<char>)> {
    if s.len() > 0 && s[0] == '"' {
        p_string_body(s.drop_first())
    } else {
        None
    }
}

/// A run of digits folded into a value, most significant first.
pub open spec fn p_digits(s: Seq<char>, acc: nat) -> (nat, Seq<char>)
    decreases s.len(),
{
    if s.len() > 0 && is_digit(s[0]) {
        p_digits(s.drop_first(), acc * 10 + digit_val(s[0]))
    } else {
        (acc, s)
    }
}

/// An unsigned decimal number: at least one digit.
pub open spec fn p_number(s: Seq<char>) -> Option<(nat, Seq<char>)> {
    if s.len() > 0 && is_digit(s[0]) {
        Some(p_digits(s, 0))
    } else {
        None
    }
}

/// An action object: one of the two tagged variants, written as an object
/// with a single key naming the variant, whose value is an object with the
/// variant's single field.
pub open spec fn p_action(s: Seq<char>) -> Option<(ActionModel, Seq<char>)> {
    match p_char(skip_ws(s), '{') {
        None => None,
        Some(s1) => {
            let s2 = skip_ws(s1);
            match p_lit(s2, "\"SwitchToProfile\""@) {
                Some(s3) => match p_field(s3, "\"profile_name\""@) {
                    None => None,
                    Some(s4) => match p_string(skip_ws(s4)) {
                        None => None,
                        Some(vr) => match p_close(vr.1) {
                            None => None,
                            Some(rest) => Some((ActionModel::Profile { name: vr.0 }, rest)),
                        },
                    },
                },
                None => match p_lit(s2, "\"SwitchToSlot\""@) {
                    None => None,
                    Some(s3) => match p_field(s3, "\"slot_index\""@) {
                        None => None,
                        Some(s4) => match p_number(skip_ws(s4)) {
                            None => None,
                            Some(vr) => if vr.0 <= usize::MAX as nat {
                                match p_close(vr.1) {
                                    None => None,
                                    Some(rest) => Some((ActionModel::Slot { index: vr.0 }, rest)),
                                }
                            } else {
                                None
                            },
                        },
                    },
                },
            }
        },
    }
}

/// After a variant key: a colon, an opening brace and the field's key with
/// its own colon, whitespace allowed throughout.
pub open spec fn p_field(s: Seq<char>, key: Seq<char>) -> Option<Seq<char>> {
    match p_char(skip_ws(s), ':') {
        None => None,
        Some(s1) => match p_char(skip_ws(s1), '{') {
            None => None,
            Some(s2) => match p_lit(skip_ws(s2), key) {
                None => None,
                Some(s3) => p_char(skip_ws(s3), ':'),
            },
        },
    }
}

/// The two closing braces that end an action object.
pub open spec fn p_close(s: Seq<char>) -> Option<Seq<char>> {
    match p_char(skip_ws(s), '}') {
        None => None,
        Some(s1) => p_char(skip_ws(s1), '}'),
    }
}

/// One `"path": action` member.
pub open spec fn p_pair(s: Seq<char>) -> Option<((Seq<char>, ActionModel), Seq<char>)> {
    match p_string(skip_ws(s)) {
        None => None,
        Some(kr) => match p_char(skip_ws(kr.1), ':') {
            None => None,
            Some(s1) => match p_action(s1) {
                None => None,
                Some(ar) => Some(((kr.0, ar.0), ar.1)),
            },
        },
    }
}

/// A non-empty, comma-separated member list up to and including the closing
/// brace of the document object.  A path that occurs twice keeps its later
/// action, as the accumulator's insert order says.
pub open spec fn p_members(s: Seq<char>, m: Map<Seq<char>, ActionModel>) -> Option<
    (Map<Seq<char>, ActionModel>, Seq<char>),
>
    decreases s.len(),
{
    match p_pair(s) {
        None => None,
        Some(kvr) => {
            let m1 = m.insert(kvr.0.0, kvr.0.1);
            let r1 = skip_ws(kvr.1);
            if r1.len() > 0 && r1[0] == ',' {
                let r2 = r1.drop_first();
                if r2.len() < s.len() {
                    p_members(r2, m1)
                } else {
                    None
                }
            } else if r1.len() > 0 && r1[0] == '}' {
                Some((m1, r1.drop_first()))
            } else {
                None
            }
        },
    }
}

/// A whole rule document: one object, nothing but whitespace around it.
/// `None` means the text is not a valid rule table.
pub open spec fn p_document(s: Seq<char>) -> Option<Map<Seq<char>, ActionModel>> {
    match p_char(skip_ws(s), '{') {
        None => None,
        Some(s1) => {
            let s2 = skip_ws(s1);
            if s2.len() > 0 && s2[0] == '}' {
                if skip_ws(s2.drop_first()).len() == 0 {
                    Some(Map::empty())
                } else {
                    None
                }
            } else {
                match p_members(s1, Map::empty()) {
                    None => None,
                    Some(mr) => if skip_ws(mr.1).len() == 0 {
                        Some(mr.0)
                    } else {
                        None
                    },
                }
            }
        },
    }
}

// ---------------------------------------------------------------------------
// Specification serializer: the canonical, indented form a table is saved in.
// ---------------------------------------------------------------------------
/// How one character is written inside a string literal: the quote and the
/// backslash are escaped, everything else stands for itself.
pub open spec fn esc_char(c: char) -> Seq<char> {
    if c == '"' {
        seq!['\\', '"']
    } else if c == '\\' {
        seq!['\\', '\\']
    } else {
        seq![c]
    }
}

/// A string's characters, escaped.
pub open spec fn esc(v: Seq<char>) -> Seq<char>
    decreases v.len(),
{
    if v.len() == 0 {
        Seq::empty()
    } else {
        esc_char(v[0]) + esc(v.drop_first())
    }
}

/// A quoted, escaped string literal.
pub open spec fn ser_string(v: Seq<char>) -> Seq<char> {
    seq!['"'] + esc(v) + seq!['"']
}

/// A number in decimal, most significant digit first.
pub open spec fn dec_rep(n: nat) -> Seq<char>
    decreases n,
{
    if n < 10 {
        seq![digit_char(n)]
    } else {
        dec_rep(n / 10) + seq![digit_char(n % 10)]
    }
}

/// The variant key an action is tagged with.
pub open spec fn ser_variant(a: ActionModel) -> Seq<char> {
    match a {
        ActionModel::Profile { .. } => "\"SwitchToProfile\""@,
        ActionModel::Slot { .. } => "\"SwitchToSlot\""@,
    }
}

/// The field key inside an action's variant object.
pub open spec fn ser_field(a: ActionModel) -> Seq<char> {
    match a {
        ActionModel::Profile { .. } => "\"profile_name\""@,
        ActionModel::Slot { .. } => "\"slot_index\""@,
    }
}

/// The field's value.
pub open spec fn ser_value(a: ActionModel) -> Seq<char> {
    match a {
        ActionModel::Profile { name } => ser_string(name),
        ActionModel::Slot { index } => dec_rep(index),
    }
}

/// One member of the document object, indented for the two-space pretty
/// layout the table is saved in.
pub open spec fn ser_entry(k: Seq<char>, a: ActionModel) -> Seq<char> {
    "  "@ + ser_string(k) + ": {\n    "@ + ser_variant(a) + ": {\n      "@ + ser_field(a) + ": "@
        + ser_value(a) + "\n    }\n  }"@
}

/// The members, joined with commas.
pub open spec fn ser_entries(s: Seq<(Seq<char>, ActionModel)>) -> Seq<char>
    decreases s.len(),
{
    if s.len() == 0 {
        Seq::empty()
    } else if s.len() == 1 {
        ser_entry(s[0].0, s[0].1)
    } else {
        ser_entry(s[0].0, s[0].1) + ",\n"@ + ser_entries(s.drop_first())
    }
}

/// A whole document: the canonical text a table is saved as.
pub open spec fn ser_document(s: Seq<(Seq<char>, ActionModel)>) -> Seq<char> {
    if s.len() == 0 {
        "{}"@
    } else {
        "{\n"@ + ser_entries(s) + "\n}"@
    }
}

} // verus!

use crate::rules::{Action, RuleTable};

verus! {

// ---------------------------------------------------------------------------
// Executable parser.  Each function mirrors its specification function over
// the document, held as a vector of characters with a cursor index; the
// specification input it corresponds to is the suffix `doc@.skip(i)`.
// ---------------------------------------------------------------------------
fn ws_char(c: char) -> (r: bool)
    ensures
        r == is_ws(c),
{
    c == ' ' || c == '\n' || c == '\t' || c == '\r'
}

/// The cursor after the whitespace at `i`.
fn ws_to(doc: &Vec<char>, i: usize) -> (j: usize)
    requires
        i <= doc.len(),
    ensures
        i <= j <= doc.len(),
        doc@.skip(j as int) == skip_ws(doc@.skip(i as int)),
    decreases doc.len() - i,
{
    if i < doc.len() && ws_char(doc[i]) {
        proof {
            assert(doc@.skip(i as int)[0] == doc@[i as int]);
            assert(doc@.skip(i as int).drop_first() =~= doc@.skip(i as int + 1));
        }
        ws_to(doc, i + 1)
    } else {
        proof {
            if i < doc.len() {
                assert(doc@.skip(i as int)[0] == doc@[i as int]);
            }
        }
        i
    }
}

/// Match one expected character at the cursor.
fn char_at(doc: &Vec<char>, i: usize, c: char) -> (r: Option<usize>)
    requires
        i <= doc.len(),
    ensures
        match r {
            Some(j) => i < j <= doc.len() && p_char(doc@.skip(i as int), c) == Some(
                doc@.skip(j as int),
            ),
            None => p_char(doc@.skip(i as int), c) is None,
        },
{
    proof {
        if i < doc.len() {
            assert(doc@.skip(i as int)[0] == doc@[i as int]);
            assert(doc@.skip(i as int).drop_first() =~= doc@.skip(i as int + 1));
        }
    }
    if i < doc.len() && doc[i] == c {
        Some(i + 1)
    } else {
        None
    }
}

/// Match an expected literal at the cursor.
fn lit_at(doc: &Vec<char>, i: usize, lit: &str) -> (r: Option<usize>)
    requires
        i <= doc.len(),
    ensures
        match r {
            Some(j) => i <= j <= doc.len() && p_lit(doc@.skip(i as int), lit@) == Some(
                doc@.skip(j as int),
            ),
            None => p_lit(doc@.skip(i as int), lit@) is None,
        },
{
    let n = lit.unicode_len();
    if n > doc.len() - i {
        proof {
            assert(doc@.skip(i as int).len() < lit@.len());
            assert(!lit@.is_prefix_of(doc@.skip(i as int)));
        }
        return None;
    }
    for k in 0..n
        invariant
            i + n <= doc.len(),
            n == lit@.len(),
            forall|q: int| 0 <= q < k ==> lit@[q] == doc@.skip(i as int)[q],
    {
        proof {
            assert(doc@.skip(i as int)[k as int] == doc@[i + k]);
        }
        if doc[i + k] != lit.get_char(k) {
            proof {
                assert(doc@.skip(i as int).subrange(0, lit@.len() as int)[k as int] == doc@.skip(
                    i as int,
                )[k as int]);
                assert(!lit@.is_prefix_of(doc@.skip(i as int)));
            }
            return None;
        }
    }
    proof {
        assert(lit@ =~= doc@.skip(i as int).subrange(0, lit@.len() as int));
        assert(lit@.is_prefix_of(doc@.skip(i as int)));
        assert(doc@.skip(i as int).skip(lit@.len() as int) =~= doc@.skip(i as int + n));
    }
    Some(i + n)
}

/// Decode one escape character.
fn unescape_at(c: char) -> (r: Option<char>)
    ensures
        r == unescape_char(c),
{
    if c == '"' {
        Some('"')
    } else if c == '\\' {
        Some('\\')
    } else if c == '/' {
        Some('/')
    } else if c == 'n' {
        Some('\n')
    } else if c == 't' {
        Some('\t')
    } else if c == 'r' {
        Some('\r')
    } else if c == 'b' {
        Some('\u{0008}')
    } else if c == 'f' {
        Some('\u{000C}')
    } else {
        None
    }
}

/// A string body, from just after the opening quote to just after the
/// closing one.
fn string_body_at(doc: &Vec<char>, i: usize) -> (r: Option<(Vec<char>, usize)>)
    requires
        i <= doc.len(),
    ensures
        match r {
            Some(vj) => i < vj.1 <= doc.len() && p_string_body(doc@.skip(i as int)) == Some(
                (vj.0@, doc@.skip(vj.1 as int)),
            ),
            None => p_string_body(doc@.skip(i as int)) is None,
        },
    decreases doc.len() - i,
{
    let ghost s = doc@.skip(i as int);
    if i >= doc.len() {
        return None;
    }
    proof {
        assert(s[0] == doc@[i as int]);
        assert(s.drop_first() =~= doc@.skip(i as int + 1));
    }
    if doc[i] == '"' {
        let v: Vec<char> = Vec::new();
        proof {
            assert(v@ =~= Seq::<char>::empty());
        }
        Some((v, i + 1))
    } else if doc[i] == '\\' {
        if i + 1 < doc.len() {
            proof {
                assert(s.len() >= 2);
                assert(s[1] == doc@[i as int + 1]);
                assert(s.skip(2) =~= doc@.skip(i as int + 2));
            }
            match unescape_at(doc[i + 1]) {
                Some(c) => match string_body_at(doc, i + 2) {
                    Some((mut v, j)) => {
                        v.insert(0, c);
                        proof {
                            assert(v@ =~= seq![c] + v@.skip(1));
                        }
                        Some((v, j))
                    },
                    None => None,
                },
                None => None,
            }
        } else {
            proof {
                assert(s.len() == 1);
            }
            None
        }
    } else {
        match string_body_at(doc, i + 1) {
            Some((mut v, j)) => {
                let c = doc[i];
                v.insert(0, c);
                proof {
                    assert(v@ =~= seq![c] + v@.skip(1));
                }
                Some((v, j))
            },
            None => None,
        }
    }
}

/// A quoted string literal at the cursor.
fn string_at(doc: &Vec<char>, i: usize) -> (r: Option<(Vec<char>, usize)>)
    requires
        i <= doc.len(),
    ensures
        match r {
            Some(vj) => i < vj.1 <= doc.len() && p_string(doc@.skip(i as int)) == Some(
                (vj.0@, doc@.skip(vj.1 as int)),
            ),
            None => p_string(doc@.skip(i as int)) is None,
        },
{
    proof {
        if i < doc.len() {
            assert(doc@.skip(i as int)[0] == doc@[i as int]);
            assert(doc@.skip(i as int).drop_first() =~= doc@.skip(i as int + 1));
        }
    }
    if i < doc.len() && doc[i] == '"' {
        string_body_at(doc, i + 1)
    } else {
        None
    }
}

/// The final value of the digit fold never shrinks below its accumulator.
proof fn lemma_digits_monotone(s: Seq<char>, acc: nat)
    ensures
        p_digits(s, acc).0 >= acc,
    decreases s.len(),
{
    if s.len() > 0 && is_digit(s[0]) {
        lemma_digits_monotone(s.drop_first(), (acc * 10 + digit_val(s[0])) as nat);
    }
}

/// A run of digits at the cursor; `None` when the value does not fit.
fn digits_at(doc: &Vec<char>, i: usize, acc: usize) -> (r: Option<(usize, usize)>)
    requires
        i <= doc.len(),
    ensures
        match r {
            Some(nj) => i <= nj.1 <= doc.len() && p_digits(doc@.skip(i as int), acc as nat) == (
                nj.0 as nat,
                doc@.skip(nj.1 as int),
            ),
            None => p_digits(doc@.skip(i as int), acc as nat).0 > usize::MAX as nat,
        },
    decreases doc.len() - i,
{
    let ghost s = doc@.skip(i as int);
    proof {
        if i < doc.len() {
            assert(s[0] == doc@[i as int]);
            assert(s.drop_first() =~= doc@.skip(i as int + 1));
        }
    }
    if i < doc.len() && digit_of(doc[i]).is_some() {
        let d = digit_of(doc[i]).unwrap();
        match acc.checked_mul(10) {
            Some(acc10) => match acc10.checked_add(d) {
                Some(acc1) => digits_at(doc, i + 1, acc1),
                None => {
                    proof {
                        lemma_digits_monotone(s.drop_first(), (acc * 10 + digit_val(s[0])) as nat);
                    }
                    None
                },
            },
            None => {
                proof {
                    assert(acc * 10 + digit_val(s[0]) > usize::MAX as nat);
                    lemma_digits_monotone(s.drop_first(), (acc * 10 + digit_val(s[0])) as nat);
                }
                None
            },
        }
    } else {
        Some((acc, i))
    }
}

/// The value of a digit, or `None` for any other character.
fn digit_of(c: char) -> (r: Option<usize>)
    ensures
        r is Some <==> is_digit(c),
        r matches Some(d) ==> d == digit_val(c) && d < 10,
{
    match c {
        '0' => Some(0),
        '1' => Some(1),
        '2' => Some(2),
        '3' => Some(3),
        '4' => Some(4),
        '5' => Some(5),
        '6' => Some(6),
        '7' => Some(7),
        '8' => Some(8),
        '9' => Some(9),
        _ => None,
    }
}

/// A decimal number at the cursor; `None` also when it exceeds the largest
/// representable index.
fn number_at(doc: &Vec<char>, i: usize) -> (r: Option<(usize, usize)>)
    requires
        i <= doc.len(),
    ensures
        match r {
            Some(nj) => i <= nj.1 <= doc.len() && (p_number(doc@.skip(i as int)) matches Some(nr)
                && nr.0 == nj.0 as nat && nr.1 == doc@.skip(nj.1 as int) && nr.0 <= usize::MAX
                as nat),
            None => match p_number(doc@.skip(i as int)) {
                Some(nr) => nr.0 > usize::MAX as nat,
                None => true,
            },
        },
{
    proof {
        if i < doc.len() {
            assert(doc@.skip(i as int)[0] == doc@[i as int]);
        }
    }
    if i < doc.len() && digit_of(doc[i]).is_some() {
        digits_at(doc, i, 0)
    } else {
        None
    }
}

} // verus!

verus! {

// ---------------------------------------------------------------------------
// Strings and character vectors
// ---------------------------------------------------------------------------
/// Relies on String::push: appends one character to the string.
#[verifier::external_body]
fn push_char(s: &mut String, c: char)
    ensures
        final(s)@ == old(s)@.push(c),
{
    s.push(c)
}

/// The characters of a string slice, as a vector.
pub(crate) fn chars_of(s: &str) -> (v: Vec<char>)
    ensures
        v@ == s@,
{
    let n = s.unicode_len();
    let mut v: Vec<char> = Vec::new();
    for k in 0..n
        invariant
            n == s@.len(),
            v@ == s@.subrange(0, k as int),
    {
        v.push(s.get_char(k));
        proof {
            assert(v@ =~= s@.subrange(0, k + 1));
        }
    }
    proof {
        assert(s@.subrange(0, s@.len() as int) =~= s@);
    }
    v
}

/// A string holding the given characters.
pub(crate) fn string_of(v: &Vec<char>) -> (s: String)
    ensures
        s@ == v@,
{
    let mut s = String::new();
    let n = v.len();
    for k in 0..n
        invariant
            n == v@.len(),
            s@ == v@.subrange(0, k as int),
    {
        push_char(&mut s, v[k]);
        proof {
            assert(s@ =~= v@.subrange(0, k + 1));
        }
    }
    proof {
        assert(v@.subrange(0, v@.len() as int) =~= v@);
    }
    s
}

// ---------------------------------------------------------------------------
// Executable parser, composite productions
// ---------------------------------------------------------------------------
/// A variant's field prelude: colon, brace, field key, colon.
fn field_at(doc: &Vec<char>, i: usize, key: &str) -> (r: Option<usize>)
    requires
        i <= doc.len(),
    ensures
        match r {
            Some(j) => i < j <= doc.len() && p_field(doc@.skip(i as int), key@) == Some(
                doc@.skip(j as int),
            ),
            None => p_field(doc@.skip(i as int), key@) is None,
        },
{
    let j = ws_to(doc, i);
    let j = match char_at(doc, j, ':') {
        Some(j) => j,
        None => {
            return None;
        },
    };
    let j = ws_to(doc, j);
    let j = match char_at(doc, j, '{') {
        Some(j) => j,
        None => {
            return None;
        },
    };
    let j = ws_to(doc, j);
    let j = match lit_at(doc, j, key) {
        Some(j) => j,
        None => {
            return None;
        },
    };
    let j = ws_to(doc, j);
    char_at(doc, j, ':')
}

/// The two closing braces of an action object.
fn close_at(doc: &Vec<char>, i: usize) -> (r: Option<usize>)
    requires
        i <= doc.len(),
    ensures
        match r {
            Some(j) => i < j <= doc.len() && p_close(doc@.skip(i as int)) == Some(
                doc@.skip(j as int),
            ),
            None => p_close(doc@.skip(i as int)) is None,
        },
{
    let j = ws_to(doc, i);
    let j = match char_at(doc, j, '}') {
        Some(j) => j,
        None => {
            return None;
        },
    };
    let j = ws_to(doc, j);
    char_at(doc, j, '}')
}

/// An action object at the cursor.
fn action_at(doc: &Vec<char>, i: usize) -> (r: Option<(Action, usize)>)
    requires
        i <= doc.len(),
    ensures
        match r {
            Some(aj) => i < aj.1 <= doc.len() && (p_action(doc@.skip(i as int)) matches Some(ar)
                && ar.0 == aj.0@ && ar.1 == doc@.skip(aj.1 as int)),
            None => p_action(doc@.skip(i as int)) is None,
        },
{
    let j = ws_to(doc, i);
    let j = match char_at(doc, j, '{') {
        Some(j) => j,
        None => {
            return None;
        },
    };
    let j2 = ws_to(doc, j);
    match lit_at(doc, j2, "\"SwitchToProfile\"") {
        Some(j3) => {
            let j4 = match field_at(doc, j3, "\"profile_name\"") {
                Some(j4) => j4,
                None => {
                    return None;
                },
            };
            let j5 = ws_to(doc, j4);
            match string_at(doc, j5) {
                Some((name, j6)) => match close_at(doc, j6) {
                    Some(j7) => {
                        let profile_name = string_of(&name);
                        Some((Action::SwitchToProfile { profile_name }, j7))
                    },
                    None => None,
                },
                None => None,
            }
        },
        None => match lit_at(doc, j2, "\"SwitchToSlot\"") {
            Some(j3) => {
                let j4 = match field_at(doc, j3, "\"slot_index\"") {
                    Some(j4) => j4,
                    None => {
                        return None;
                    },
                };
                let j5 = ws_to(doc, j4);
                match number_at(doc, j5) {
                    Some((n, j6)) => match close_at(doc, j6) {
                        Some(j7) => Some((Action::SwitchToSlot { slot_index: n }, j7)),
                        None => None,
                    },
                    None => None,
                }
            },
            None => None,
        },
    }
}

/// One `"path": action` member at the cursor.
fn pair_at(doc: &Vec<char>, i: usize) -> (r: Option<(String, Action, usize)>)
    requires
        i <= doc.len(),
    ensures
        match r {
            Some(kaj) => i < kaj.2 <= doc.len() && (p_pair(doc@.skip(i as int)) matches Some(kar)
                && kar.0.0 == kaj.0@ && kar.0.1 == kaj.1@ && kar.1 == doc@.skip(kaj.2 as int)),
            None => p_pair(doc@.skip(i as int)) is None,
        },
{
    let j = ws_to(doc, i);
    match string_at(doc, j) {
        Some((key, j1)) => {
            let j2 = ws_to(doc, j1);
            match char_at(doc, j2, ':') {
                Some(j3) => match action_at(doc, j3) {
                    Some((action, j4)) => Some((string_of(&key), action, j4)),
                    None => None,
                },
                None => None,
            }
        },
        None => None,
    }
}

} // verus!

verus! {

/// The member list from the cursor up to the document's closing brace,
/// folded into `table`.
fn members_at(doc: &Vec<char>, i: usize, table: &mut RuleTable) -> (r: Option<usize>)
    requires
        i <= doc.len(),
        old(table).wf(),
    ensures
        final(table).wf(),
        match r {
            Some(j) => j <= doc.len() && p_members(doc@.skip(i as int), old(table)@) == Some(
                (final(table)@, doc@.skip(j as int)),
            ),
            None => p_members(doc@.skip(i as int), old(table)@) is None,
        },
    decreases doc.len() - i,
{
    let ghost s = doc@.skip(i as int);
    match pair_at(doc, i) {
        None => None,
        Some((path, action, j1)) => {
            table.upsert(path, action);
            let j2 = ws_to(doc, j1);
            proof {
                if j2 < doc.len() {
                    assert(doc@.skip(j2 as int)[0] == doc@[j2 as int]);
                    assert(doc@.skip(j2 as int).drop_first() =~= doc@.skip(j2 as int + 1));
                }
            }
            if j2 < doc.len() && doc[j2] == ',' {
                proof {
                    assert(doc@.skip(j2 as int + 1).len() < s.len());
                }
                members_at(doc, j2 + 1, table)
            } else if j2 < doc.len() && doc[j2] == '}' {
                Some(j2 + 1)
            } else {
                None
            }
        },
    }
}

/// Read a rule table from the text of a rule document.  The result is
/// `Some` exactly when the document is valid — [`p_document`] accepts it —
/// and then the table holds exactly the document's rule mapping.
pub fn parse_rules(doc: &str) -> (r: Option<RuleTable>)
    ensures
        match r {
            Some(t) => t.wf() && (p_document(doc@) matches Some(m) && t@ == m),
            None => p_document(doc@) is None,
        },
{
    let text = chars_of(doc);
    proof {
        assert(text@.skip(0) =~= doc@);
    }
    let j = ws_to(&text, 0);
    let j1 = match char_at(&text, j, '{') {
        Some(j1) => j1,
        None => {
            return None;
        },
    };
    let j2 = ws_to(&text, j1);
    proof {
        if j2 < text.len() {
            assert(text@.skip(j2 as int)[0] == text@[j2 as int]);
            assert(text@.skip(j2 as int).drop_first() =~= text@.skip(j2 as int + 1));
        }
    }
    if j2 < text.len() && text[j2] == '}' {
        let j3 = ws_to(&text, j2 + 1);
        if j3 == text.len() {
            proof {
                assert(text@.skip(j3 as int).len() == 0);
            }
            Some(RuleTable::new())
        } else {
            proof {
                assert(text@.skip(j3 as int).len() > 0);
            }
            None
        }
    } else {
        let mut table = RuleTable::new();
        match members_at(&text, j1, &mut table) {
            Some(j4) => {
                let j5 = ws_to(&text, j4);
                if j5 == text.len() {
                    proof {
                        assert(text@.skip(j5 as int).len() == 0);
                    }
                    Some(table)
                } else {
                    proof {
                        assert(text@.skip(j5 as int).len() > 0);
                    }
                    None
                }
            },
            None => None,
        }
    }
}

} // verus!

verus! {

// ---------------------------------------------------------------------------
// Executable serializer
// ---------------------------------------------------------------------------
/// Escaping one more character appends its escape.
proof fn lemma_esc_push(v: Seq<char>, c: char)
    ensures
        esc(v.push(c)) == esc(v) + esc_char(c),
    decreases v.len(),
{
    if v.len() == 0 {
        assert(v.push(c)[0] == c);
        assert(v.push(c).drop_first() =~= Seq::<char>::empty());
        assert(esc(v.push(c)) == esc_char(c) + esc(Seq::<char>::empty()));
        assert(esc_char(c) + Seq::<char>::empty() =~= esc_char(c));
        assert(Seq::<char>::empty() + esc_char(c) =~= esc_char(c));
        assert(esc(v.push(c)) =~= esc(v) + esc_char(c));
    } else {
        assert(v.push(c)[0] == v[0]);
        assert(v.push(c).drop_first() =~= v.drop_first().push(c));
        lemma_esc_push(v.drop_first(), c);
        assert(esc(v.push(c)) == esc_char(v[0]) + (esc(v.drop_first()) + esc_char(c)));
        assert(esc_char(v[0]) + (esc(v.drop_first()) + esc_char(c)) =~= esc(v) + esc_char(c));
    }
}

/// Append a literal to the output.
pub(crate) fn push_lit(out: &mut Vec<char>, s: &str)
    ensures
        final(out)@ == old(out)@ + s@,
{
    let n = s.unicode_len();
    for k in 0..n
        invariant
            n == s@.len(),
            out@ == old(out)@ + s@.subrange(0, k as int),
    {
        out.push(s.get_char(k));
        proof {
            assert(out@ =~= old(out)@ + s@.subrange(0, k + 1));
        }
    }
    proof {
        assert(old(out)@ + s@.subrange(0, s@.len() as int) =~= old(out)@ + s@);
    }
}

/// Append a string literal — quotes and escapes included — to the output.
fn push_string(out: &mut Vec<char>, s: &String)
    ensures
        final(out)@ == old(out)@ + ser_string(s@),
{
    out.push('"');
    let ghost base = out@;
    let n = s.as_str().unicode_len();
    for k in 0..n
        invariant
            n == s@.len(),
            out@ == base + esc(s@.subrange(0, k as int)),
    {
        let c = s.as_str().get_char(k);
        proof {
            assert(s@.subrange(0, k + 1) =~= s@.subrange(0, k as int).push(s@[k as int]));
            lemma_esc_push(s@.subrange(0, k as int), s@[k as int]);
        }
        if c == '"' {
            out.push('\\');
            out.push('"');
        } else if c == '\\' {
            out.push('\\');
            out.push('\\');
        } else {
            out.push(c);
        }
        proof {
            assert(out@ =~= base + esc(s@.subrange(0, k + 1)));
        }
    }
    out.push('"');
    proof {
        assert(s@.subrange(0, s@.len() as int) =~= s@);
        assert(out@ =~= old(out)@ + ser_string(s@));
    }
}

/// The decimal digit with a given value, executable form.
pub(crate) fn digit_to_char(d: usize) -> (c: char)
    requires
        d < 10,
    ensures
        c == digit_char(d as nat),
{
    if d == 0 {
        '0'
    } else if d == 1 {
        '1'
    } else if d == 2 {
        '2'
    } else if d == 3 {
        '3'
    } else if d == 4 {
        '4'
    } else if d == 5 {
        '5'
    } else if d == 6 {
        '6'
    } else if d == 7 {
        '7'
    } else if d == 8 {
        '8'
    } else {
        '9'
    }
}

/// Append a number in decimal to the output.
pub(crate) fn push_number(out: &mut Vec<char>, n: usize)
    ensures
        final(out)@ == old(out)@ + dec_rep(n as nat),
    decreases n,
{
    if n < 10 {
        out.push(digit_to_char(n));
        proof {
            assert(out@ =~= old(out)@ + dec_rep(n as nat));
        }
    } else {
        push_number(out, n / 10);
        out.push(digit_to_char(n % 10));
        proof {
            assert(out@ =~= old(out)@ + dec_rep(n as nat));
        }
    }
}

/// Append one member of the document object to the output.
fn push_entry(out: &mut Vec<char>, path: &String, action: &Action)
    ensures
        final(out)@ == old(out)@ + ser_entry(path@, action@),
{
    push_lit(out, "  ");
    push_string(out, path);
    match action {
        Action::SwitchToProfile { profile_name } => {
            push_lit(out, ": {\n    ");
            push_lit(out, "\"SwitchToProfile\"");
            push_lit(out, ": {\n      ");
            push_lit(out, "\"profile_name\"");
            push_lit(out, ": ");
            push_string(out, profile_name);
        },
        Action::SwitchToSlot { slot_index } => {
            push_lit(out, ": {\n    ");
            push_lit(out, "\"SwitchToSlot\"");
            push_lit(out, ": {\n      ");
            push_lit(out, "\"slot_index\"");
            push_lit(out, ": ");
            push_number(out, *slot_index);
        },
    }
    push_lit(out, "\n    }\n  }");
    proof {
        assert(out@ =~= old(out)@ + ser_entry(path@, action@));
    }
}

/// One more member joins the list after a comma.
proof fn lemma_entries_push(s: Seq<(Seq<char>, ActionModel)>, e: (Seq<char>, ActionModel))
    requires
        s.len() > 0,
    ensures
        ser_entries(s.push(e)) == ser_entries(s) + ",\n"@ + ser_entry(e.0, e.1),
    decreases s.len(),
{
    let t = s.push(e);
    assert(t[0] == s[0]);
    if s.len() == 1 {
        assert(t.drop_first() =~= seq![e]);
        assert(seq![e][0] == e);
        assert(ser_entries(seq![e]) == ser_entry(e.0, e.1));
        assert(ser_entry(s[0].0, s[0].1) + ",\n"@ + ser_entries(t.drop_first()) =~= ser_entries(s)
            + ",\n"@ + ser_entry(e.0, e.1));
    } else {
        assert(t.drop_first() =~= s.drop_first().push(e));
        lemma_entries_push(s.drop_first(), e);
        assert(ser_entry(t[0].0, t[0].1) + ",\n"@ + (ser_entries(s.drop_first()) + ",\n"@
            + ser_entry(e.0, e.1)) =~= (ser_entry(s[0].0, s[0].1) + ",\n"@ + ser_entries(
            s.drop_first(),
        )) + ",\n"@ + ser_entry(e.0, e.1));
    }
}

/// Write a rule table as the text of a rule document: the canonical form
/// [`ser_document`] of its entries.
pub fn render_rules(table: &RuleTable) -> (r: String)
    ensures
        r@ == ser_document(table.entries_seq()),
{
    let ghost entries = table.entries_seq();
    let mut out: Vec<char> = Vec::new();
    let n = table.len();
    if n == 0 {
        push_lit(&mut out, "{}");
        proof {
            assert(out@ =~= ser_document(entries));
        }
        return string_of(&out);
    }
    push_lit(&mut out, "{\n");
    for i in 0..n
        invariant
            n == entries.len(),
            n > 0,
            entries == table.entries_seq(),
            i > 0 ==> out@ == "{\n"@ + ser_entries(entries.subrange(0, i as int)),
            i == 0 ==> out@ == "{\n"@,
    {
        if i > 0 {
            push_lit(&mut out, ",\n");
        }
        let (path, action) = table.entry_at(i);
        push_entry(&mut out, path, action);
        proof {
            let pre = entries.subrange(0, i as int);
            let cur = entries.subrange(0, i + 1);
            assert(cur =~= pre.push(entries[i as int]));
            assert((entries[i as int].0, entries[i as int].1) == entries[i as int]);
            if i > 0 {
                lemma_entries_push(pre, entries[i as int]);
            }
            assert(out@ =~= "{\n"@ + ser_entries(cur));
        }
    }
    push_lit(&mut out, "\n}");
    proof {
        assert(entries.subrange(0, entries.len() as int) =~= entries);
        assert(out@ =~= ser_document(entries));
    }
    string_of(&out)
}

} // verus!

verus! {

// ---------------------------------------------------------------------------
// Round trip: parsing the canonical form of a table yields its rule mapping.
// ---------------------------------------------------------------------------
/// Nothing but whitespace.
pub open spec fn all_ws(w: Seq<char>) -> bool {
    forall|i: int| 0 <= i < w.len() ==> is_ws(w[i])
}

/// Skipping whitespace walks over any whitespace prefix.
proof fn lemma_skip_ws_all(w: Seq<char>, s: Seq<char>)
    requires
        all_ws(w),
    ensures
        skip_ws(w + s) == skip_ws(s),
    decreases w.len(),
{
    if w.len() == 0 {
        assert(w + s =~= s);
    } else {
        assert((w + s)[0] == w[0]);
        assert(is_ws(w[0]));
        assert((w + s).drop_first() =~= w.drop_first() + s);
        assert(all_ws(w.drop_first()));
        lemma_skip_ws_all(w.drop_first(), s);
    }
}

/// Skipping whitespace stops right at a non-whitespace character.
proof fn lemma_ws_then(w: Seq<char>, s: Seq<char>)
    requires
        all_ws(w),
        s.len() > 0,
        !is_ws(s[0]),
    ensures
        skip_ws(w + s) == s,
{
    lemma_skip_ws_all(w, s);
}

/// An expected character matches at the head.
proof fn lemma_char_head(c: char, rest: Seq<char>)
    ensures
        p_char(seq![c] + rest, c) == Some(rest),
{
    let s = seq![c] + rest;
    assert(s[0] == c);
    assert(s.drop_first() =~= rest);
}

/// An expected literal matches at the head.
proof fn lemma_lit_head(lit: Seq<char>, rest: Seq<char>)
    ensures
        p_lit(lit + rest, lit) == Some(rest),
{
    let s = lit + rest;
    assert(lit =~= s.subrange(0, lit.len() as int));
    assert(lit.is_prefix_of(s));
    assert(s.skip(lit.len() as int) =~= rest);
}

/// A serialized string body parses back to the string it came from.
proof fn lemma_string_body_rt(v: Seq<char>, rest: Seq<char>)
    ensures
        p_string_body(esc(v) + seq!['"'] + rest) == Some((v, rest)),
    decreases v.len(),
{
    let s = esc(v) + seq!['"'] + rest;
    if v.len() == 0 {
        assert(esc(v) + seq!['"'] =~= seq!['"']);
        assert(s[0] == '"');
        assert(s.drop_first() =~= rest);
        assert(p_string_body(s) == Some((Seq::<char>::empty(), rest)));
        assert(Seq::<char>::empty() =~= v);
    } else {
        let c = v[0];
        let tail = esc(v.drop_first()) + seq!['"'] + rest;
        lemma_string_body_rt(v.drop_first(), rest);
        if c == '"' {
            assert(esc(v) =~= seq!['\\', '"'] + esc(v.drop_first()));
            assert(s =~= seq!['\\', '"'] + tail);
            assert(s[0] == '\\' && s[1] == '"');
            assert(unescape_char('"') == Some('"'));
            assert(s.skip(2) =~= tail);
            assert(seq![c] + v.drop_first() =~= v);
        } else if c == '\\' {
            assert(esc(v) =~= seq!['\\', '\\'] + esc(v.drop_first()));
            assert(s =~= seq!['\\', '\\'] + tail);
            assert(s[0] == '\\' && s[1] == '\\');
            assert(unescape_char('\\') == Some('\\'));
            assert(s.skip(2) =~= tail);
            assert(seq![c] + v.drop_first() =~= v);
        } else {
            assert(esc(v) =~= seq![c] + esc(v.drop_first()));
            assert(s =~= seq![c] + tail);
            assert(s[0] == c && c != '"' && c != '\\');
            assert(s.drop_first() =~= tail);
            assert(seq![c] + v.drop_first() =~= v);
        }
    }
}

/// A serialized string literal parses back to the string it came from.
proof fn lemma_string_rt(v: Seq<char>, rest: Seq<char>)
    ensures
        p_string(ser_string(v) + rest) == Some((v, rest)),
{
    let s = ser_string(v) + rest;
    assert(s[0] == '"');
    assert(s.len() > 0);
    assert(s.drop_first() =~= esc(v) + seq!['"'] + rest);
    lemma_string_body_rt(v, rest);
}

} // verus!

verus! {

/// Nothing but digits.
pub open spec fn all_digits(d: Seq<char>) -> bool {
    forall|i: int| 0 <= i < d.len() ==> is_digit(d[i])
}

/// The digit fold consumes exactly a digit run.
proof fn lemma_digits_concat(d: Seq<char>, rest: Seq<char>, acc: nat)
    requires
        all_digits(d),
        rest.len() == 0 || !is_digit(rest[0]),
    ensures
        p_digits(d + rest, acc) == (p_digits(d, acc).0, rest),
    decreases d.len(),
{
    let s = d + rest;
    if d.len() == 0 {
        assert(s =~= rest);
    } else {
        assert(s[0] == d[0]);
        assert(is_digit(d[0]));
        assert(s.drop_first() =~= d.drop_first() + rest);
        assert(all_digits(d.drop_first()));
        lemma_digits_concat(d.drop_first(), rest, acc * 10 + digit_val(d[0]));
        assert(d.drop_first() + Seq::<char>::empty() =~= d.drop_first());
        lemma_digits_concat(d.drop_first(), Seq::empty(), acc * 10 + digit_val(d[0]));
    }
}

/// Folding one more digit multiplies by ten and adds it.
proof fn lemma_digits_fold_push(d: Seq<char>, c: char, acc: nat)
    requires
        all_digits(d),
        is_digit(c),
    ensures
        p_digits(d.push(c), acc).0 == p_digits(d, acc).0 * 10 + digit_val(c),
    decreases d.len(),
{
    let t = d.push(c);
    if d.len() == 0 {
        assert(t[0] == c);
        assert(t.drop_first() =~= Seq::<char>::empty());
        assert(p_digits(t, acc) == p_digits(Seq::<char>::empty(), acc * 10 + digit_val(c)));
        assert(p_digits(t, acc).0 == acc * 10 + digit_val(c));
        assert(p_digits(d, acc).0 == acc);
    } else {
        assert(is_digit(d[0]));
        assert(t[0] == d[0]);
        assert(t.drop_first() =~= d.drop_first().push(c));
        assert(all_digits(d.drop_first()));
        let acc1 = acc * 10 + digit_val(d[0]);
        lemma_digits_fold_push(d.drop_first(), c, acc1);
        assert(p_digits(t, acc) == p_digits(d.drop_first().push(c), acc1));
        assert(p_digits(d, acc) == p_digits(d.drop_first(), acc1));
    }
}

/// The decimal form holds digits alone.
proof fn lemma_dec_rep_digits(n: nat)
    ensures
        all_digits(dec_rep(n)),
        dec_rep(n).len() > 0,
        is_digit(dec_rep(n)[0]),
    decreases n,
{
    if n < 10 {
        assert(is_digit(digit_char(n)));
        assert(dec_rep(n)[0] == digit_char(n));
    } else {
        lemma_dec_rep_digits(n / 10);
        let d = dec_rep(n / 10);
        assert(is_digit(digit_char(n % 10)));
        assert forall|i: int| 0 <= i < dec_rep(n).len() implies is_digit(dec_rep(n)[i]) by {
            if i < d.len() {
                assert(dec_rep(n)[i] == d[i]);
            } else {
                assert(dec_rep(n)[i] == digit_char(n % 10));
            }
        }
        assert(dec_rep(n)[0] == d[0]);
    }
}

/// Folding the decimal form of a number gives the number back.
proof fn lemma_dec_rep_value(n: nat)
    ensures
        p_digits(dec_rep(n), 0).0 == n,
    decreases n,
{
    if n < 10 {
        let d = dec_rep(n);
        assert(d[0] == digit_char(n));
        assert(is_digit(digit_char(n)));
        assert(d.drop_first() =~= Seq::<char>::empty());
        assert(p_digits(d, 0) == p_digits(Seq::<char>::empty(), 0 * 10 + digit_val(d[0])));
        assert(digit_val(digit_char(n)) == n);
    } else {
        lemma_dec_rep_value(n / 10);
        lemma_dec_rep_digits(n / 10);
        assert(dec_rep(n) =~= dec_rep(n / 10).push(digit_char(n % 10)));
        assert(is_digit(digit_char(n % 10)));
        lemma_digits_fold_push(dec_rep(n / 10), digit_char(n % 10), 0);
        assert(p_digits(dec_rep(n), 0).0 == p_digits(dec_rep(n / 10), 0).0 * 10 + digit_val(
            digit_char(n % 10),
        ));
        assert(digit_val(digit_char(n % 10)) == n % 10);
        vstd::arithmetic::div_mod::lemma_fundamental_div_mod(n as int, 10);
        assert(p_digits(dec_rep(n), 0).0 == (n / 10) * 10 + n % 10);
    }
}

/// A serialized number parses back to the number it came from.
proof fn lemma_number_rt(n: nat, rest: Seq<char>)
    requires
        rest.len() == 0 || !is_digit(rest[0]),
    ensures
        p_number(dec_rep(n) + rest) == Some((n, rest)),
{
    lemma_dec_rep_digits(n);
    lemma_dec_rep_value(n);
    lemma_digits_concat(dec_rep(n), rest, 0);
    assert((dec_rep(n) + rest)[0] == dec_rep(n)[0]);
}

} // verus!

verus! {

/// The canonical field prelude parses up to the field's value.
proof fn lemma_field_rt(key: Seq<char>, tail: Seq<char>)
    requires
        key.len() > 0,
        key[0] == '"',
    ensures
        p_field(": {\n      "@ + key + ": "@ + tail, key) == Some(seq![' '] + tail),
{
    reveal_strlit(": {\n      ");
    reveal_strlit(": ");
    let w1: Seq<char> = seq![' '];
    let w2: Seq<char> = seq!['\n', ' ', ' ', ' ', ' ', ' ', ' '];
    let r4: Seq<char> = seq![' '] + tail;
    let r3: Seq<char> = seq![':'] + r4;
    let r2: Seq<char> = key + r3;
    let r1: Seq<char> = seq!['{'] + (w2 + r2);
    let s = ": {\n      "@ + key + ": "@ + tail;
    assert(s =~= seq![':'] + (w1 + r1));
    assert(s[0] == ':' && !is_ws(':'));
    assert(skip_ws(s) == s);
    lemma_char_head(':', w1 + r1);
    assert(all_ws(w1));
    assert(r1[0] == '{' && !is_ws('{'));
    lemma_ws_then(w1, r1);
    lemma_char_head('{', w2 + r2);
    assert(all_ws(w2));
    assert(r2[0] == '"' && !is_ws('"'));
    lemma_ws_then(w2, r2);
    lemma_lit_head(key, r3);
    assert(r3[0] == ':' && !is_ws(':'));
    assert(skip_ws(r3) == r3);
    lemma_char_head(':', r4);
}

/// The canonical closing braces parse away completely.
proof fn lemma_close_rt(tail: Seq<char>)
    ensures
        p_close("\n    }\n  }"@ + tail) == Some(tail),
{
    reveal_strlit("\n    }\n  }");
    let w1: Seq<char> = seq!['\n', ' ', ' ', ' ', ' '];
    let w2: Seq<char> = seq!['\n', ' ', ' '];
    let r2: Seq<char> = seq!['}'] + tail;
    let r1: Seq<char> = seq!['}'] + (w2 + r2);
    let s = "\n    }\n  }"@ + tail;
    assert(s =~= w1 + r1);
    assert(all_ws(w1));
    assert(r1[0] == '}' && !is_ws('}'));
    lemma_ws_then(w1, r1);
    lemma_char_head('}', w2 + r2);
    assert(all_ws(w2));
    assert(r2[0] == '}' && !is_ws('}'));
    lemma_ws_then(w2, r2);
    lemma_char_head('}', tail);
}

/// The canonical text of an action object parses back to the action.
proof fn lemma_action_rt(a: ActionModel, w: Seq<char>, tail: Seq<char>)
    requires
        all_ws(w),
        action_bounded(a),
    ensures
        p_action(
            w + ("{\n    "@ + ser_variant(a) + ": {\n      "@ + ser_field(a) + ": "@ + ser_value(a)
                + "\n    }\n  }"@) + tail,
        ) == Some((a, tail)),
{
    reveal_strlit("{\n    ");
    reveal_strlit("\n    }\n  }");
    reveal_strlit("\"SwitchToProfile\"");
    reveal_strlit("\"SwitchToSlot\"");
    reveal_strlit("\"profile_name\"");
    reveal_strlit("\"slot_index\"");
    let body = "{\n    "@ + ser_variant(a) + ": {\n      "@ + ser_field(a) + ": "@ + ser_value(a)
        + "\n    }\n  }"@;
    let s = w + body + tail;
    let w1: Seq<char> = seq!['\n', ' ', ' ', ' ', ' '];
    let fieldtail = ser_value(a) + ("\n    }\n  }"@ + tail);
    let s2 = ser_variant(a) + (": {\n      "@ + ser_field(a) + ": "@ + fieldtail);
    let r1: Seq<char> = seq!['{'] + (w1 + s2);
    assert(s =~= w + (seq!['{'] + (w1 + s2)));
    assert(r1[0] == '{' && !is_ws('{'));
    lemma_ws_then(w, r1);
    assert(s =~= w + r1);
    assert(skip_ws(s) == r1);
    lemma_char_head('{', w1 + s2);
    assert(all_ws(w1));
    assert(ser_variant(a)[0] == '"');
    assert(s2[0] == '"' && !is_ws('"'));
    lemma_ws_then(w1, s2);
    let s3 = ": {\n      "@ + ser_field(a) + ": "@ + fieldtail;
    assert(s2 =~= ser_variant(a) + s3);
    lemma_lit_head(ser_variant(a), s3);
    match a {
        ActionModel::Profile { name } => {
            assert(p_lit(s2, "\"SwitchToProfile\""@) == Some(s3));
            assert(ser_field(a) == "\"profile_name\""@);
            assert(ser_field(a)[0] == '"');
            lemma_field_rt(ser_field(a), fieldtail);
            let s4 = seq![' '] + fieldtail;
            assert(p_field(s3, "\"profile_name\""@) == Some(s4));
            assert(ser_value(a) == ser_string(name));
            assert(ser_string(name)[0] == '"');
            assert(fieldtail[0] == '"' && !is_ws('"'));
            lemma_ws_then(seq![' '], fieldtail);
            assert(fieldtail =~= ser_string(name) + ("\n    }\n  }"@ + tail));
            lemma_string_rt(name, "\n    }\n  }"@ + tail);
            lemma_close_rt(tail);
        },
        ActionModel::Slot { index } => {
            assert(s2[9] == ser_variant(a)[9]);
            assert(ser_variant(a)[9] == 'S');
            assert("\"SwitchToProfile\""@[9] == 'P');
            assert(!("\"SwitchToProfile\""@.is_prefix_of(s2))) by {
                if "\"SwitchToProfile\""@.is_prefix_of(s2) {
                    assert(s2.subrange(0, 17)[9] == s2[9]);
                }
            }
            assert(p_lit(s2, "\"SwitchToProfile\""@) is None);
            assert(p_lit(s2, "\"SwitchToSlot\""@) == Some(s3));
            assert(ser_field(a) == "\"slot_index\""@);
            assert(ser_field(a)[0] == '"');
            lemma_field_rt(ser_field(a), fieldtail);
            let s4 = seq![' '] + fieldtail;
            assert(p_field(s3, "\"slot_index\""@) == Some(s4));
            assert(ser_value(a) == dec_rep(index));
            lemma_dec_rep_digits(index);
            assert(fieldtail[0] == dec_rep(index)[0]);
            assert(is_digit(fieldtail[0]) && !is_ws(fieldtail[0])) by {
                assert(is_digit(dec_rep(index)[0]));
            }
            lemma_ws_then(seq![' '], fieldtail);
            assert(fieldtail =~= dec_rep(index) + ("\n    }\n  }"@ + tail));
            assert(("\n    }\n  }"@ + tail)[0] == '\n');
            assert(!is_digit('\n'));
            lemma_number_rt(index, "\n    }\n  }"@ + tail);
            lemma_close_rt(tail);
        },
    }
}

} // verus!

use crate::rules::{action_bounded, entries_map};

verus! {

/// The canonical text of one member parses back to its path and action.
proof fn lemma_pair_rt(k: Seq<char>, a: ActionModel, w: Seq<char>, tail: Seq<char>)
    requires
        all_ws(w),
        action_bounded(a),
    ensures
        p_pair(w + ser_entry(k, a) + tail) == Some(((k, a), tail)),
{
    reveal_strlit("  ");
    reveal_strlit(": {\n    ");
    reveal_strlit("{\n    ");
    let body = "{\n    "@ + ser_variant(a) + ": {\n      "@ + ser_field(a) + ": "@ + ser_value(a)
        + "\n    }\n  }"@;
    let r2 = seq![' '] + body + tail;
    let r1 = seq![':'] + r2;
    let r0 = ser_string(k) + r1;
    let w0 = w + "  "@;
    let s = w + ser_entry(k, a) + tail;
    assert(all_ws(w0));
    assert(s =~= w0 + r0);
    assert(ser_string(k)[0] == '"');
    assert(r0[0] == '"' && !is_ws('"'));
    lemma_ws_then(w0, r0);
    assert(r0 =~= ser_string(k) + r1);
    lemma_string_rt(k, r1);
    assert(r1[0] == ':' && !is_ws(':'));
    assert(skip_ws(r1) == r1);
    lemma_char_head(':', r2);
    assert(r2 =~= seq![' '] + body + tail);
    assert(all_ws(seq![' ']));
    lemma_action_rt(a, seq![' '], tail);
}

/// The mapping that arriving members fold into an accumulator.
pub open spec fn fold_entries(
    m: Map<Seq<char>, ActionModel>,
    s: Seq<(Seq<char>, ActionModel)>,
) -> Map<Seq<char>, ActionModel>
    decreases s.len(),
{
    if s.len() == 0 {
        m
    } else {
        fold_entries(m.insert(s[0].0, s[0].1), s.drop_first())
    }
}

/// Folding one more entry inserts it last.
proof fn lemma_fold_entries_push(
    m: Map<Seq<char>, ActionModel>,
    s: Seq<(Seq<char>, ActionModel)>,
    e: (Seq<char>, ActionModel),
)
    ensures
        fold_entries(m, s.push(e)) == fold_entries(m, s).insert(e.0, e.1),
    decreases s.len(),
{
    let t = s.push(e);
    if s.len() == 0 {
        assert(t[0] == e);
        assert(t.drop_first() =~= Seq::<(Seq<char>, ActionModel)>::empty());
        assert(fold_entries(m, t) == fold_entries(m.insert(t[0].0, t[0].1), t.drop_first()));
        assert(fold_entries(m.insert(e.0, e.1), Seq::empty()) == m.insert(e.0, e.1));
    } else {
        assert(t[0] == s[0]);
        assert(t.drop_first() =~= s.drop_first().push(e));
        lemma_fold_entries_push(m.insert(s[0].0, s[0].1), s.drop_first(), e);
        assert(fold_entries(m, t) == fold_entries(
            m.insert(s[0].0, s[0].1),
            s.drop_first().push(e),
        ));
        assert(fold_entries(m, s) == fold_entries(m.insert(s[0].0, s[0].1), s.drop_first()));
    }
}

/// Folding from the empty map gives the entry sequence's rule mapping.
proof fn lemma_fold_entries_map(s: Seq<(Seq<char>, ActionModel)>)
    ensures
        fold_entries(Map::empty(), s) == entries_map(s),
    decreases s.len(),
{
    if s.len() > 0 {
        lemma_fold_entries_map(s.drop_last());
        assert(s =~= s.drop_last().push(s.last()));
        lemma_fold_entries_push(Map::empty(), s.drop_last(), s.last());
    }
}

/// The canonical member list parses back to its folded mapping.
proof fn lemma_members_rt(
    entries: Seq<(Seq<char>, ActionModel)>,
    m: Map<Seq<char>, ActionModel>,
    tail: Seq<char>,
)
    requires
        entries.len() > 0,
        forall|i: int| 0 <= i < entries.len() ==> action_bounded(#[trigger] entries[i].1),
    ensures
        p_members(seq!['\n'] + ser_entries(entries) + ("\n}"@ + tail), m) == Some(
            (fold_entries(m, entries), tail),
        ),
    decreases entries.len(),
{
    reveal_strlit("\n}");
    reveal_strlit(",\n");
    let e0 = entries[0];
    let s = seq!['\n'] + ser_entries(entries) + ("\n}"@ + tail);
    assert(all_ws(seq!['\n']));
    assert(action_bounded(e0.1));
    if entries.len() == 1 {
        let tail0 = "\n}"@ + tail;
        assert(ser_entries(entries) == ser_entry(e0.0, e0.1));
        assert(s =~= seq!['\n'] + ser_entry(e0.0, e0.1) + tail0);
        lemma_pair_rt(e0.0, e0.1, seq!['\n'], tail0);
        assert(tail0 =~= seq!['\n'] + (seq!['}'] + tail));
        assert((seq!['}'] + tail)[0] == '}' && !is_ws('}'));
        lemma_ws_then(seq!['\n'], seq!['}'] + tail);
        let r1 = seq!['}'] + tail;
        assert(r1[0] == '}' && r1[0] != ',');
        assert(r1.drop_first() =~= tail);
        assert(fold_entries(m, entries) == fold_entries(
            m.insert(e0.0, e0.1),
            entries.drop_first(),
        ));
        assert(entries.drop_first().len() == 0);
    } else {
        let rest = entries.drop_first();
        let tail0 = ",\n"@ + ser_entries(rest) + ("\n}"@ + tail);
        assert(ser_entries(entries) == ser_entry(e0.0, e0.1) + ",\n"@ + ser_entries(rest));
        assert(s =~= seq!['\n'] + ser_entry(e0.0, e0.1) + tail0);
        lemma_pair_rt(e0.0, e0.1, seq!['\n'], tail0);
        assert(tail0[0] == ',' && !is_ws(','));
        assert(skip_ws(tail0) == tail0);
        let r2 = seq!['\n'] + ser_entries(rest) + ("\n}"@ + tail);
        assert(tail0.drop_first() =~= r2);
        assert(r2.len() < s.len());
        assert(forall|i: int| 0 <= i < rest.len() ==> action_bounded(#[trigger] rest[i].1));
        lemma_members_rt(rest, m.insert(e0.0, e0.1), tail);
        assert(fold_entries(m, entries) == fold_entries(m.insert(e0.0, e0.1), rest));
    }
}

/// Round trip: the canonical text of any entry sequence is a valid rule
/// document, and parsing it yields exactly the sequence's rule mapping.
/// Together with the contracts of [`render_rules`] and [`parse_rules`] this
/// says that saving a rule table and loading it back gives a table with the
/// same mapping, whatever order the entries stood in.
#[verifier::rlimit(100)]
pub proof fn lemma_render_parse_round_trip(entries: Seq<(Seq<char>, ActionModel)>)
    requires
        forall|i: int| 0 <= i < entries.len() ==> action_bounded(#[trigger] entries[i].1),
    ensures
        p_document(ser_document(entries)) == Some(entries_map(entries)),
{
    reveal_strlit("{}");
    reveal_strlit("{\n");
    reveal_strlit("\n}");
    reveal_strlit("  ");
    let doc = ser_document(entries);
    if entries.len() == 0 {
        assert(doc =~= seq!['{', '}']);
        assert(doc[0] == '{' && !is_ws('{'));
        assert(skip_ws(doc) == doc);
        let s1 = doc.drop_first();
        assert(p_char(doc, '{') == Some(s1));
        assert(s1 =~= seq!['}']);
        assert(s1[0] == '}' && !is_ws('}'));
        assert(skip_ws(s1) == s1);
        assert(s1.drop_first() =~= Seq::<char>::empty());
        assert(skip_ws(Seq::<char>::empty()).len() == 0);
        assert(entries_map(entries) =~= Map::<Seq<char>, ActionModel>::empty());
    } else {
        let e0 = entries[0];
        let s1 = seq!['\n'] + ser_entries(entries) + ("\n}"@ + Seq::<char>::empty());
        assert(doc =~= seq!['{'] + s1);
        assert(doc[0] == '{' && !is_ws('{'));
        assert(skip_ws(doc) == doc);
        lemma_char_head('{', s1);
        let krest = ser_string(e0.0) + (": {\n    "@ + ser_variant(e0.1) + ": {\n      "@
            + ser_field(e0.1) + ": "@ + ser_value(e0.1) + "\n    }\n  }"@ + (if entries.len()
            == 1 {
            "\n}"@
        } else {
            ",\n"@ + ser_entries(entries.drop_first()) + "\n}"@
        }));
        assert(s1 =~= (seq!['\n'] + "  "@) + krest) by {
            if entries.len() == 1 {
                assert(ser_entries(entries) == ser_entry(e0.0, e0.1));
            } else {
                assert(ser_entries(entries) == ser_entry(e0.0, e0.1) + ",\n"@ + ser_entries(
                    entries.drop_first(),
                ));
            }
        }
        assert(all_ws(seq!['\n'] + "  "@));
        assert(ser_string(e0.0)[0] == '"');
        assert(krest[0] == '"' && !is_ws('"'));
        lemma_ws_then(seq!['\n'] + "  "@, krest);
        let s2 = skip_ws(s1);
        assert(s2 == krest);
        assert(s2.len() > 0 && s2[0] != '}');
        lemma_members_rt(entries, Map::empty(), Seq::empty());
        assert(seq!['\n'] + ser_entries(entries) + ("\n}"@ + Seq::<char>::empty()) == s1);
        assert(p_members(s1, Map::empty()) == Some(
            (fold_entries(Map::empty(), entries), Seq::<char>::empty()),
        ));
        assert(skip_ws(Seq::<char>::empty()).len() == 0);
        lemma_fold_entries_map(entries);
    }
}

} // verus!

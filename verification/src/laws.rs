use vstd::prelude::*;

use crate::ast::{binary, Op, SpecAst};
use crate::error::Error;
use crate::parser::{spec_add_rest, spec_additive, spec_mul_rest, spec_multiplicative, spec_parse, spec_primary};
use crate::spec_pipeline;
use crate::token::{is_digit, SpecToken};
use crate::tokenizer::{lemma_literal_end_chars, literal_end, op_token, spec_scan, spec_tokenize, wellformed_literal};

verus! {

/// The token that an operator builds into the tree.
pub open spec fn tok_of_op(o: Op) -> SpecToken {
    match o {
        Op::Add => SpecToken::Add,
        Op::Sub => SpecToken::Sub,
        Op::Mul => SpecToken::Mul,
        Op::Div => SpecToken::Div,
    }
}

/// A run of digits reaches the end of the input before its literal ends.
proof fn lemma_literal_end_all_digits(s: Seq<char>, j: int, seen_dot: bool)
    requires
        0 <= j <= s.len(),
        forall|k: int| j <= k < s.len() ==> is_digit(s[k]),
    ensures
        literal_end(s, j, seen_dot) == Ok::<_, Error>(s.len() as int),
    decreases s.len() - j,
{
    if j < s.len() {
        lemma_literal_end_all_digits(s, j + 1, seen_dot);
    }
}

/// Identity on single-number expressions: a digit-only input becomes one
/// number token, and parsing it yields the single leaf that holds exactly
/// that input, whose value is the number the input denotes.
pub proof fn lemma_single_number_identity(s: Seq<char>)
    requires
        s.len() > 0,
        forall|i: int| 0 <= i < s.len() ==> is_digit(s[i]),
    ensures
        spec_pipeline(s) == Ok::<_, Error>(SpecAst::Number(s)),
{
    lemma_literal_end_all_digits(s, 1, false);
    let toks = seq![SpecToken::Number(s), SpecToken::Eof];
    assert(s.subrange(0, s.len() as int) =~= s);
    assert(spec_scan(s, s.len() as int) == Ok::<_, Error>(Seq::<SpecToken>::empty()));
    assert(seq![SpecToken::Number(s)] + Seq::<SpecToken>::empty() =~= seq![
        SpecToken::Number(s),
    ]);
    assert(spec_scan(s, 0) == Ok::<_, Error>(seq![SpecToken::Number(s)]));
    assert(seq![SpecToken::Number(s)].push(SpecToken::Eof) =~= toks);
    assert(spec_tokenize(s) == Ok::<_, Error>(toks));
    assert(spec_parse(toks) == Ok::<_, Error>(Some(SpecAst::Number(s))));
}

/// Operators of one precedence level associate to the left: the token
/// shape `a o1 b o2 c`, with both operators additive, parses as
/// `(a o1 b) o2 c`, never as `a o1 (b o2 c)`.
pub proof fn lemma_additive_left_associative(
    a: Seq<char>,
    o1: Op,
    b: Seq<char>,
    o2: Op,
    c: Seq<char>,
)
    requires
        o1 == Op::Add || o1 == Op::Sub,
        o2 == Op::Add || o2 == Op::Sub,
    ensures
        spec_parse(
            seq![
                SpecToken::Number(a),
                tok_of_op(o1),
                SpecToken::Number(b),
                tok_of_op(o2),
                SpecToken::Number(c),
                SpecToken::Eof,
            ],
        ) == Ok::<_, Error>(
            Some(binary(binary(SpecAst::Number(a), o1, SpecAst::Number(b)), o2, SpecAst::Number(c))),
        ),
{
    let toks = seq![
        SpecToken::Number(a),
        tok_of_op(o1),
        SpecToken::Number(b),
        tok_of_op(o2),
        SpecToken::Number(c),
        SpecToken::Eof,
    ];
    let na = SpecAst::Number(a);
    let nb = SpecAst::Number(b);
    let nc = SpecAst::Number(c);
    let ab = binary(na, o1, nb);
    let abc = binary(ab, o2, nc);
    assert(spec_mul_rest(toks, 1, na) == Ok::<(SpecAst, int), Error>((na, 1)));
    assert(spec_multiplicative(toks, 0) == Ok::<Option<(SpecAst, int)>, Error>(Some((na, 1))));
    assert(spec_mul_rest(toks, 3, nb) == Ok::<(SpecAst, int), Error>((nb, 3)));
    assert(spec_multiplicative(toks, 2) == Ok::<Option<(SpecAst, int)>, Error>(Some((nb, 3))));
    assert(spec_mul_rest(toks, 5, nc) == Ok::<(SpecAst, int), Error>((nc, 5)));
    assert(spec_multiplicative(toks, 4) == Ok::<Option<(SpecAst, int)>, Error>(Some((nc, 5))));
    assert(spec_add_rest(toks, 5, abc) == Ok::<(SpecAst, int), Error>((abc, 5)));
    assert(spec_add_rest(toks, 3, ab) == spec_add_rest(toks, 5, abc));
    assert(spec_add_rest(toks, 1, na) == spec_add_rest(toks, 3, ab));
    assert(spec_additive(toks, 0) == Ok::<Option<(SpecAst, int)>, Error>(Some((abc, 5))));
}

/// Multiplicative operators bind tighter than additive ones: the token
/// shape `a o1 b o2 c`, with `o1` additive and `o2` multiplicative, parses
/// as `a o1 (b o2 c)`.
pub proof fn lemma_multiplicative_binds_tighter(
    a: Seq<char>,
    o1: Op,
    b: Seq<char>,
    o2: Op,
    c: Seq<char>,
)
    requires
        o1 == Op::Add || o1 == Op::Sub,
        o2 == Op::Mul || o2 == Op::Div,
    ensures
        spec_parse(
            seq![
                SpecToken::Number(a),
                tok_of_op(o1),
                SpecToken::Number(b),
                tok_of_op(o2),
                SpecToken::Number(c),
                SpecToken::Eof,
            ],
        ) == Ok::<_, Error>(
            Some(binary(SpecAst::Number(a), o1, binary(SpecAst::Number(b), o2, SpecAst::Number(c)))),
        ),
{
    let toks = seq![
        SpecToken::Number(a),
        tok_of_op(o1),
        SpecToken::Number(b),
        tok_of_op(o2),
        SpecToken::Number(c),
        SpecToken::Eof,
    ];
    let na = SpecAst::Number(a);
    let nb = SpecAst::Number(b);
    let nc = SpecAst::Number(c);
    let bc = binary(nb, o2, nc);
    let abc = binary(na, o1, bc);
    assert(spec_mul_rest(toks, 1, na) == Ok::<(SpecAst, int), Error>((na, 1)));
    assert(spec_multiplicative(toks, 0) == Ok::<Option<(SpecAst, int)>, Error>(Some((na, 1))));
    assert(spec_primary(toks, 4) == Some::<(SpecAst, int)>((nc, 5)));
    assert(spec_mul_rest(toks, 5, bc) == Ok::<(SpecAst, int), Error>((bc, 5)));
    assert(spec_mul_rest(toks, 3, nb) == Ok::<(SpecAst, int), Error>((bc, 5)));
    assert(spec_multiplicative(toks, 2) == Ok::<Option<(SpecAst, int)>, Error>(Some((bc, 5))));
    assert(spec_add_rest(toks, 5, abc) == Ok::<(SpecAst, int), Error>((abc, 5)));
    assert(spec_add_rest(toks, 1, na) == spec_add_rest(toks, 5, abc));
    assert(spec_additive(toks, 0) == Ok::<Option<(SpecAst, int)>, Error>(Some((abc, 5))));
}

/// The mirror of the precedence law: with `o1` multiplicative and `o2`
/// additive, the token shape `a o1 b o2 c` parses as `(a o1 b) o2 c`.
pub proof fn lemma_multiplicative_evaluated_first(
    a: Seq<char>,
    o1: Op,
    b: Seq<char>,
    o2: Op,
    c: Seq<char>,
)
    requires
        o1 == Op::Mul || o1 == Op::Div,
        o2 == Op::Add || o2 == Op::Sub,
    ensures
        spec_parse(
            seq![
                SpecToken::Number(a),
                tok_of_op(o1),
                SpecToken::Number(b),
                tok_of_op(o2),
                SpecToken::Number(c),
                SpecToken::Eof,
            ],
        ) == Ok::<_, Error>(
            Some(binary(binary(SpecAst::Number(a), o1, SpecAst::Number(b)), o2, SpecAst::Number(c))),
        ),
{
    let toks = seq![
        SpecToken::Number(a),
        tok_of_op(o1),
        SpecToken::Number(b),
        tok_of_op(o2),
        SpecToken::Number(c),
        SpecToken::Eof,
    ];
    let na = SpecAst::Number(a);
    let nb = SpecAst::Number(b);
    let nc = SpecAst::Number(c);
    let ab = binary(na, o1, nb);
    let abc = binary(ab, o2, nc);
    assert(spec_primary(toks, 2) == Some::<(SpecAst, int)>((nb, 3)));
    assert(spec_mul_rest(toks, 3, ab) == Ok::<(SpecAst, int), Error>((ab, 3)));
    assert(spec_mul_rest(toks, 1, na) == spec_mul_rest(toks, 3, ab));
    assert(spec_multiplicative(toks, 0) == Ok::<Option<(SpecAst, int)>, Error>(Some((ab, 3))));
    assert(spec_mul_rest(toks, 5, nc) == Ok::<(SpecAst, int), Error>((nc, 5)));
    assert(spec_multiplicative(toks, 4) == Ok::<Option<(SpecAst, int)>, Error>(Some((nc, 5))));
    assert(spec_add_rest(toks, 5, abc) == Ok::<(SpecAst, int), Error>((abc, 5)));
    assert(spec_add_rest(toks, 3, ab) == spec_add_rest(toks, 5, abc));
    assert(spec_additive(toks, 0) == Ok::<Option<(SpecAst, int)>, Error>(Some((abc, 5))));
}

/// The same left association holds at the multiplicative level: the token
/// shape `a o1 b o2 c`, with both operators multiplicative, parses as
/// `(a o1 b) o2 c`.
pub proof fn lemma_multiplicative_left_associative(
    a: Seq<char>,
    o1: Op,
    b: Seq<char>,
    o2: Op,
    c: Seq<char>,
)
    requires
        o1 == Op::Mul || o1 == Op::Div,
        o2 == Op::Mul || o2 == Op::Div,
    ensures
        spec_parse(
            seq![
                SpecToken::Number(a),
                tok_of_op(o1),
                SpecToken::Number(b),
                tok_of_op(o2),
                SpecToken::Number(c),
                SpecToken::Eof,
            ],
        ) == Ok::<_, Error>(
            Some(binary(binary(SpecAst::Number(a), o1, SpecAst::Number(b)), o2, SpecAst::Number(c))),
        ),
{
    let toks = seq![
        SpecToken::Number(a),
        tok_of_op(o1),
        SpecToken::Number(b),
        tok_of_op(o2),
        SpecToken::Number(c),
        SpecToken::Eof,
    ];
    let na = SpecAst::Number(a);
    let nb = SpecAst::Number(b);
    let nc = SpecAst::Number(c);
    let ab = binary(na, o1, nb);
    let abc = binary(ab, o2, nc);
    assert(spec_primary(toks, 2) == Some::<(SpecAst, int)>((nb, 3)));
    assert(spec_primary(toks, 4) == Some::<(SpecAst, int)>((nc, 5)));
    assert(spec_mul_rest(toks, 5, abc) == Ok::<(SpecAst, int), Error>((abc, 5)));
    assert(spec_mul_rest(toks, 3, ab) == spec_mul_rest(toks, 5, abc));
    assert(spec_mul_rest(toks, 1, na) == spec_mul_rest(toks, 3, ab));
    assert(spec_multiplicative(toks, 0) == Ok::<Option<(SpecAst, int)>, Error>(Some((abc, 5))));
    assert(spec_add_rest(toks, 5, abc) == Ok::<(SpecAst, int), Error>((abc, 5)));
    assert(spec_additive(toks, 0) == Ok::<Option<(SpecAst, int)>, Error>(Some((abc, 5))));
}

/// Two number tokens with no operator between them are malformed, whatever
/// follows them.
pub proof fn lemma_adjacent_numbers_rejected(a: Seq<char>, b: Seq<char>, rest: Seq<SpecToken>)
    ensures
        spec_parse(seq![SpecToken::Number(a), SpecToken::Number(b)] + rest) == Err::<
            Option<SpecAst>,
            _,
        >(Error::InvalidExpression),
{
    let toks = seq![SpecToken::Number(a), SpecToken::Number(b)] + rest;
    let na = SpecAst::Number(a);
    assert(toks[0] == SpecToken::Number(a));
    assert(toks[1] == SpecToken::Number(b));
    assert(spec_primary(toks, 0) == Some::<(SpecAst, int)>((na, 1)));
    assert(spec_mul_rest(toks, 1, na) == Err::<(SpecAst, int), _>(Error::InvalidExpression));
    assert(spec_multiplicative(toks, 0) == Err::<Option<(SpecAst, int)>, _>(
        Error::InvalidExpression,
    ));
}

/// A trailing operator with no operand after it is tolerated by
/// truncation: the expression parsed so far stands, the dangling operator
/// is dropped.
pub proof fn lemma_dangling_operator_truncated(a: Seq<char>, o: Op)
    ensures
        spec_parse(seq![SpecToken::Number(a), tok_of_op(o), SpecToken::Eof]) == Ok::<_, Error>(
            Some(SpecAst::Number(a)),
        ),
{
    let toks = seq![SpecToken::Number(a), tok_of_op(o), SpecToken::Eof];
    let na = SpecAst::Number(a);
    assert(spec_primary(toks, 0) == Some::<(SpecAst, int)>((na, 1)));
    assert(spec_primary(toks, 2) is None);
    match o {
        Op::Mul | Op::Div => {
            assert(spec_mul_rest(toks, 1, na) == Ok::<(SpecAst, int), Error>((na, 2)));
            assert(spec_multiplicative(toks, 0) == Ok::<Option<(SpecAst, int)>, Error>(
                Some((na, 2)),
            ));
            assert(spec_add_rest(toks, 2, na) == Ok::<(SpecAst, int), Error>((na, 2)));
        },
        Op::Add | Op::Sub => {
            assert(spec_mul_rest(toks, 1, na) == Ok::<(SpecAst, int), Error>((na, 1)));
            assert(spec_multiplicative(toks, 0) == Ok::<Option<(SpecAst, int)>, Error>(
                Some((na, 1)),
            ));
            assert(spec_multiplicative(toks, 2) == Ok::<Option<(SpecAst, int)>, Error>(None));
            assert(spec_add_rest(toks, 1, na) == Ok::<(SpecAst, int), Error>((na, 2)));
        },
    }
}

/// Every number token that a scan emits holds a wellformed literal.
proof fn lemma_scan_literals_wellformed(s: Seq<char>, i: int)
    requires
        0 <= i <= s.len(),
    ensures
        spec_scan(s, i) matches Ok(toks) ==> forall|k: int|
            0 <= k < toks.len() ==> (#[trigger] toks[k] matches SpecToken::Number(lit)
                ==> wellformed_literal(lit)),
    decreases s.len() - i,
{
    if i < s.len() {
        if op_token(s[i]) is Some {
            lemma_scan_literals_wellformed(s, i + 1);
            if let Ok(rest) = spec_scan(s, i + 1) {
                let toks = seq![op_token(s[i])->Some_0] + rest;
                assert forall|k: int| 0 <= k < toks.len() implies (#[trigger] toks[k]
                    matches SpecToken::Number(lit) ==> wellformed_literal(lit)) by {
                    if k > 0 {
                        assert(toks[k] == rest[k - 1]);
                    }
                }
            }
        } else if is_digit(s[i]) {
            if let Ok(end) = literal_end(s, i + 1, false) {
                lemma_literal_end_chars(s, i + 1, false, end);
                lemma_scan_literals_wellformed(s, end);
                let lit = s.subrange(i, end);
                assert(wellformed_literal(lit)) by {
                    assert(lit[0] == s[i]);
                    assert forall|m: int| 0 <= m < lit.len() implies is_digit(lit[m]) || lit[m]
                        == '.' by {
                        assert(lit[m] == s[i + m]);
                    }
                    assert forall|k1: int, k2: int|
                        0 <= k1 < lit.len() && 0 <= k2 < lit.len() && lit[k1] == '.' && lit[k2]
                            == '.' implies k1 == k2 by {
                        assert(lit[k1] == s[i + k1] && lit[k2] == s[i + k2]);
                    }
                }
                if let Ok(rest) = spec_scan(s, end) {
                    let toks = seq![SpecToken::Number(lit)] + rest;
                    assert forall|k: int| 0 <= k < toks.len() implies (#[trigger] toks[k]
                        matches SpecToken::Number(l) ==> wellformed_literal(l)) by {
                        if k > 0 {
                            assert(toks[k] == rest[k - 1]);
                        }
                    }
                }
            }
        } else if s[i] == ' ' || s[i] == '\n' {
            lemma_scan_literals_wellformed(s, i + 1);
        }
    }
}

/// The numeric conversion of a literal cannot actually fail: every number
/// token that tokenizing emits holds a nonempty literal that opens with a
/// digit and has at most one decimal point, which is exactly the text a
/// decimal number parser accepts.
pub proof fn lemma_tokenize_literals_wellformed(s: Seq<char>)
    ensures
        spec_tokenize(s) matches Ok(toks) ==> forall|k: int|
            0 <= k < toks.len() ==> (#[trigger] toks[k] matches SpecToken::Number(lit)
                ==> wellformed_literal(lit)),
{
    if s.len() > 0 && is_digit(s[0]) {
        lemma_scan_literals_wellformed(s, 0);
        if let Ok(scanned) = spec_scan(s, 0) {
            let toks = scanned.push(SpecToken::Eof);
            assert forall|k: int| 0 <= k < toks.len() implies (#[trigger] toks[k]
                matches SpecToken::Number(lit) ==> wellformed_literal(lit)) by {
                if k < scanned.len() {
                    assert(toks[k] == scanned[k]);
                }
            }
        }
    }
}

} // verus!


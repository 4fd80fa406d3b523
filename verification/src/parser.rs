use vstd::prelude::*;

use crate::rpn::{eval_rel, Elt, Error, Op, Stack};

verus! {

/// The Unicode white-space property, written out over the code points that
/// carry it.
pub open spec fn is_wspace(c: char) -> bool {
    let u = c as u32;
    ||| u == 0x20
    ||| (0x9 <= u && u <= 0xd)
    ||| u == 0x85
    ||| u == 0xa0
    ||| u == 0x1680
    ||| (0x2000 <= u && u <= 0x200a)
    ||| u == 0x2028
    ||| u == 0x2029
    ||| u == 0x202f
    ||| u == 0x205f
    ||| u == 0x3000
}

fn is_wspace_char(c: char) -> (b: bool)
    ensures
        b == is_wspace(c),
{
    let u = c as u32;
    u == 0x20 || (0x9 <= u && u <= 0xd) || u == 0x85 || u == 0xa0 || u == 0x1680 || (0x2000 <= u
        && u <= 0x200a) || u == 0x2028 || u == 0x2029 || u == 0x202f || u == 0x205f || u == 0x3000
}

/// The maximal white-space-free words of `s`, given that the word `cur` is
/// already open on its left.
pub open spec fn split_ws(s: Seq<char>, cur: Seq<char>) -> Seq<Seq<char>>
    decreases s.len(),
{
    if s.len() == 0 {
        if cur.len() == 0 {
            Seq::empty()
        } else {
            seq![cur]
        }
    } else if is_wspace(s[0]) {
        (if cur.len() == 0 {
            Seq::<Seq<char>>::empty()
        } else {
            seq![cur]
        }) + split_ws(s.drop_first(), Seq::empty())
    } else {
        split_ws(s.drop_first(), cur.push(s[0]))
    }
}

/// The white-space-separated tokens of a line.
pub open spec fn tokens_of(s: Seq<char>) -> Seq<Seq<char>> {
    split_ws(s, Seq::empty())
}

/// The views of a list of tokens.
pub open spec fn views_of(ts: Seq<Vec<char>>) -> Seq<Seq<char>> {
    ts.map_values(|t: Vec<char>| t@)
}

/// Splits a line into its white-space-separated tokens.
#[verifier::loop_isolation(false)]
pub fn tokenize(s: &str) -> (r: Vec<Vec<char>>)
    ensures
        views_of(r@) == tokens_of(s@),
{
    let n = s.unicode_len();
    let mut toks: Vec<Vec<char>> = Vec::new();
    let mut cur: Vec<char> = Vec::new();
    let mut i: usize = 0;
    proof {
        assert(s@.skip(0) =~= s@);
        assert(views_of(toks@) =~= Seq::<Seq<char>>::empty());
    }
    while i < n
        invariant
            i <= n,
            n == s@.len(),
            tokens_of(s@) == views_of(toks@) + split_ws(s@.skip(i as int), cur@),
        decreases n - i,
    {
        let c = s.get_char(i);
        proof {
            assert(s@.skip(i as int)[0] == s@[i as int]);
            assert(s@.skip(i as int).drop_first() =~= s@.skip(i as int + 1));
        }
        if is_wspace_char(c) {
            if cur.len() > 0 {
                let ghost old_toks = toks@;
                toks.push(cur);
                cur = Vec::new();
                proof {
                    assert(views_of(toks@) =~= views_of(old_toks) + seq![toks@.last()@]);
                    assert(tokens_of(s@) =~= views_of(toks@) + split_ws(
                        s@.skip(i as int + 1),
                        cur@,
                    ));
                }
            } else {
                proof {
                    assert(cur@ =~= Seq::<char>::empty());
                    assert(Seq::<Seq<char>>::empty() + split_ws(s@.skip(i as int + 1), cur@)
                        =~= split_ws(s@.skip(i as int + 1), cur@));
                }
            }
        } else {
            let ghost old_cur = cur@;
            cur.push(c);
            proof {
                assert(cur@ == old_cur.push(s@[i as int]));
                assert(split_ws(s@.skip(i as int), old_cur) == split_ws(
                    s@.skip(i as int + 1),
                    cur@,
                ));
            }
        }
        i += 1;
    }
    if cur.len() > 0 {
        let ghost old_toks = toks@;
        toks.push(cur);
        proof {
            assert(views_of(toks@) =~= views_of(old_toks) + seq![toks@.last()@]);
            assert(tokens_of(s@) =~= views_of(toks@));
        }
    } else {
        proof {
            assert(tokens_of(s@) =~= views_of(toks@));
        }
    }
    toks
}

pub open spec fn is_digit(c: char) -> bool {
    '0' <= c && c <= '9'
}

pub open spec fn digit_of(c: char) -> int {
    (c as u32) as int - 48
}

/// The value of a string of decimal digits, most significant first.
pub open spec fn dec_val(s: Seq<char>) -> int
    decreases s.len(),
{
    if s.len() == 0 {
        0
    } else {
        dec_val(s.drop_last()) * 10 + digit_of(s.last())
    }
}

/// The shape an integer token must have: an optional sign, then at least one
/// digit and nothing else.
pub open spec fn int_shape(t: Seq<char>) -> bool {
    let start: int = if t.len() > 0 && (t[0] == '-' || t[0] == '+') {
        1
    } else {
        0
    };
    t.len() > start && (forall|j: int| start <= j < t.len() ==> is_digit(#[trigger] t[j]))
}

/// What the token denotes as an `i32`: its signed decimal value when it has
/// the integer shape and the value fits, `None` otherwise.
pub open spec fn parse_int(t: Seq<char>) -> Option<i32> {
    if !int_shape(t) {
        None
    } else {
        let start: int = if t[0] == '-' || t[0] == '+' {
            1
        } else {
            0
        };
        let v: int = if t[0] == '-' {
            -dec_val(t.skip(start))
        } else {
            dec_val(t.skip(start))
        };
        if i32::MIN <= v <= i32::MAX {
            Some(v as i32)
        } else {
            None
        }
    }
}

proof fn lemma_dec_val_nonneg(s: Seq<char>)
    requires
        forall|j: int| 0 <= j < s.len() ==> is_digit(#[trigger] s[j]),
    ensures
        dec_val(s) >= 0,
    decreases s.len(),
{
    if s.len() > 0 {
        lemma_dec_val_nonneg(s.drop_last());
    }
}

/// More digits only grow the value: a prefix never exceeds the whole.
proof fn lemma_dec_val_prefix(s: Seq<char>, m: int)
    requires
        0 <= m <= s.len(),
        forall|j: int| 0 <= j < s.len() ==> is_digit(#[trigger] s[j]),
    ensures
        dec_val(s) >= dec_val(s.take(m)),
    decreases s.len() - m,
{
    if m < s.len() {
        lemma_dec_val_prefix(s, m + 1);
        let p = s.take(m + 1);
        assert(p.drop_last() =~= s.take(m));
        lemma_dec_val_nonneg(s.take(m));
        assert(dec_val(p) == dec_val(s.take(m)) * 10 + digit_of(p.last()));
    } else {
        assert(s.take(m) =~= s);
    }
}

/// Reads an integer token.
#[verifier::loop_isolation(false)]
pub fn parse_i32_chars(t: &Vec<char>) -> (r: Option<i32>)
    ensures
        r == parse_int(t@),
{
    let n = t.len();
    if n == 0 {
        return None;
    }
    let c0 = t[0];
    let neg = c0 == '-';
    let signed = neg || c0 == '+';
    let start: usize = if signed {
        1
    } else {
        0
    };
    if n == start {
        return None;
    }
    let ghost digits = t@.skip(start as int);
    let mut acc: u64 = 0;
    let mut j: usize = start;
    proof {
        assert(digits.take(0) =~= Seq::<char>::empty());
    }
    while j < n
        invariant
            start <= j <= n,
            forall|k: int| start <= k < j ==> is_digit(#[trigger] t@[k]),
            acc == dec_val(digits.take(j - start)),
            acc <= 0x8000_0000u64,
        decreases n - j,
    {
        let c = t[j];
        if !('0' <= c && c <= '9') {
            proof {
                assert(!int_shape(t@));
            }
            return None;
        }
        let d: u64 = ((c as u32) - 48) as u64;
        acc = acc * 10 + d;
        proof {
            let m = j - start;
            assert(digits.take(m + 1).drop_last() =~= digits.take(m as int));
            assert(digits.take(m + 1).last() == t@[j as int]);
            assert(acc == dec_val(digits.take(m + 1)));
        }
        if acc > 0x8000_0000u64 {
            proof {
                if int_shape(t@) {
                    assert(digits =~= t@.skip(start as int));
                    assert forall|k: int| 0 <= k < digits.len() implies is_digit(
                        #[trigger] digits[k],
                    ) by {
                        assert(digits[k] == t@[k + start]);
                    }
                    lemma_dec_val_prefix(digits, j - start + 1);
                }
            }
            return None;
        }
        j += 1;
    }
    proof {
        assert(digits.take(n - start) =~= digits);
        assert(int_shape(t@));
    }
    if neg {
        Some((-(acc as i64)) as i32)
    } else {
        if acc > 0x7fff_ffffu64 {
            return None;
        }
        Some(acc as i32)
    }
}

/// Compares a token against a literal, character by character.
fn chars_eq(t: &Vec<char>, s: &str) -> (r: bool)
    ensures
        r == (t@ == s@),
{
    let n = s.unicode_len();
    if t.len() != n {
        proof {
            assert(t@.len() != s@.len());
        }
        return false;
    }
    let mut j: usize = 0;
    while j < n
        invariant
            j <= n,
            n == s@.len(),
            n == t@.len(),
            forall|k: int| 0 <= k < j ==> t@[k] == s@[k],
        decreases n - j,
    {
        if t[j] != s.get_char(j) {
            return false;
        }
        j += 1;
    }
    proof {
        assert(t@ =~= s@);
    }
    true
}

/// The operator a keyword token denotes.
pub open spec fn op_of(t: Seq<char>) -> Op {
    if t == "+"@ {
        Op::Add
    } else if t == "~"@ {
        Op::Neg
    } else if t == "<->"@ {
        Op::Swap
    } else if t == "="@ {
        Op::Eq
    } else if t == "#"@ {
        Op::Rand
    } else {
        Op::Quit
    }
}

pub open spec fn is_op_token(t: Seq<char>) -> bool {
    t == "+"@ || t == "~"@ || t == "<->"@ || t == "="@ || t == "#"@ || t == "quit"@
}

/// How one line relates the stack before (`pre`) and after (`post`) it is
/// evaluated, together with the result: each token in turn either pushes the
/// value it denotes, applies the operator it names — stopping with that
/// operator's error if it fails — or stops everything with a syntax error.
pub open spec fn line_rel(
    pre: Seq<Elt>,
    toks: Seq<Seq<char>>,
    post: Seq<Elt>,
    r: Result<(), Error>,
) -> bool
    decreases toks.len(),
{
    if toks.len() == 0 {
        post == pre && r matches Ok(_)
    } else {
        let t = toks[0];
        match parse_int(t) {
            Some(x) => line_rel(pre.push(Elt::Int(x)), toks.drop_first(), post, r),
            None => {
                if t == "true"@ {
                    line_rel(pre.push(Elt::Bool(true)), toks.drop_first(), post, r)
                } else if t == "false"@ {
                    line_rel(pre.push(Elt::Bool(false)), toks.drop_first(), post, r)
                } else if is_op_token(t) {
                    exists|mid: Seq<Elt>, out: Result<(), Error>|
                        {
                            &&& #[trigger] eval_rel(pre, op_of(t), mid, out)
                            &&& match out {
                                Ok(_) => line_rel(mid, toks.drop_first(), post, r),
                                Err(_) => post == mid && r == out,
                            }
                        }
                } else {
                    post == pre && r matches Err(Error::Syntax)
                }
            },
        }
    }
}

/// Evaluates one line of input against the stack: integers and booleans are
/// pushed, operator keywords are applied, and anything else is a syntax
/// error that stops the line.
#[verifier::loop_isolation(false)]
pub fn evaluate_line(stack: &mut Stack, buf: &String) -> (r: Result<(), Error>)
    ensures
        line_rel(old(stack)@, tokens_of(buf@), final(stack)@, r),
{
    let tokens = tokenize(buf.as_str());
    let ghost toksv = tokens_of(buf@);
    let n = tokens.len();
    let mut k: usize = 0;
    proof {
        assert(toksv.skip(0) =~= toksv);
    }
    while k < n
        invariant
            k <= n,
            n == tokens@.len(),
            forall|post: Seq<Elt>, rr: Result<(), Error>|
                #[trigger] line_rel(stack@, toksv.skip(k as int), post, rr) ==> line_rel(
                    old(stack)@,
                    toksv,
                    post,
                    rr,
                ),
        decreases n - k,
    {
        let t = &tokens[k];
        let ghost pre = stack@;
        let ghost rest = toksv.skip(k as int);
        proof {
            assert(views_of(tokens@)[k as int] == tokens@[k as int]@);
            assert(rest[0] == toksv[k as int]);
            assert(t@ == rest[0]);
            assert(rest.drop_first() =~= toksv.skip(k as int + 1));
        }
        match parse_i32_chars(t) {
            Some(x) => {
                stack.push(Elt::Int(x))?;
                proof {
                    assert forall|post: Seq<Elt>, rr: Result<(), Error>|
                        #[trigger] line_rel(stack@, toksv.skip(k as int + 1), post, rr)
                            implies line_rel(pre, rest, post, rr) by {}
                }
            },
            None => {
                if chars_eq(t, "true") {
                    stack.push(Elt::Bool(true))?;
                    proof {
                        assert forall|post: Seq<Elt>, rr: Result<(), Error>|
                            #[trigger] line_rel(stack@, toksv.skip(k as int + 1), post, rr)
                                implies line_rel(pre, rest, post, rr) by {}
                    }
                } else if chars_eq(t, "false") {
                    stack.push(Elt::Bool(false))?;
                    proof {
                        assert forall|post: Seq<Elt>, rr: Result<(), Error>|
                            #[trigger] line_rel(stack@, toksv.skip(k as int + 1), post, rr)
                                implies line_rel(pre, rest, post, rr) by {}
                    }
                } else {
                    let op = if chars_eq(t, "+") {
                        Op::Add
                    } else if chars_eq(t, "~") {
                        Op::Neg
                    } else if chars_eq(t, "<->") {
                        Op::Swap
                    } else if chars_eq(t, "=") {
                        Op::Eq
                    } else if chars_eq(t, "#") {
                        Op::Rand
                    } else if chars_eq(t, "quit") {
                        Op::Quit
                    } else {
                        proof {
                            assert(line_rel(pre, rest, pre, Err::<(), Error>(Error::Syntax)));
                        }
                        return Err(Error::Syntax);
                    };
                    proof {
                        assert(op == op_of(t@));
                        assert(is_op_token(t@));
                    }
                    let res = stack.eval(op);
                    match res {
                        Ok(_) => {
                            proof {
                                assert(eval_rel(pre, op_of(t@), stack@, res));
                                assert forall|post: Seq<Elt>, rr: Result<(), Error>|
                                    #[trigger] line_rel(
                                        stack@,
                                        toksv.skip(k as int + 1),
                                        post,
                                        rr,
                                    ) implies line_rel(pre, rest, post, rr) by {
                                    assert(eval_rel(pre, op_of(t@), stack@, res));
                                }
                            }
                        },
                        Err(e) => {
                            proof {
                                assert(eval_rel(pre, op_of(t@), stack@, Err::<(), Error>(e)));
                                assert(line_rel(pre, rest, stack@, Err::<(), Error>(e)));
                            }
                            return Err(e);
                        },
                    }
                }
            },
        }
        k += 1;
    }
    proof {
        assert(toksv.skip(n as int).len() == 0);
        assert(line_rel(stack@, toksv.skip(n as int), stack@, Ok::<(), Error>(())));
    }
    Ok(())
}

} // verus!

//! Character-level building blocks for the configuration file format: an
//! escaping scheme that removes separator characters from payload text, and a
//! generic "terminated parts" framing (`glue`/`cut`) used once with `'\n'` for
//! lines and once with `' '` for the tokens of a line.

use vstd::prelude::*;

verus! {

/// Relies on `String::push`: appends exactly the given character.
#[verifier::external_body]
pub fn push_char(s: &mut String, c: char)
    ensures
        final(s)@ == old(s)@.push(c),
{
    s.push(c);
}

/// How one payload character is written in the file: `'\\'`, `'\n'` and `' '`
/// are replaced by two-character escapes so that payload text never contains
/// a separator.
pub open spec fn esc_char(c: char) -> Seq<char> {
    if c == '\\' {
        seq!['\\', '\\']
    } else if c == '\n' {
        seq!['\\', 'n']
    } else if c == ' ' {
        seq!['\\', 's']
    } else {
        seq![c]
    }
}

/// The escaped form of a payload string.
pub open spec fn esc(s: Seq<char>) -> Seq<char>
    decreases s.len(),
{
    if s.len() == 0 {
        Seq::empty()
    } else {
        esc_char(s[0]) + esc(s.drop_first())
    }
}

/// Inverse of `esc`: `None` on a dangling or unknown escape.
pub open spec fn unesc(s: Seq<char>) -> Option<Seq<char>>
    decreases s.len(),
{
    if s.len() == 0 {
        Some(Seq::empty())
    } else if s[0] == '\\' {
        if s.len() == 1 {
            None
        } else {
            let d = if s[1] == '\\' {
                Some('\\')
            } else if s[1] == 'n' {
                Some('\n')
            } else if s[1] == 's' {
                Some(' ')
            } else {
                None
            };
            match d {
                None => None,
                Some(c) => match unesc(s.skip(2)) {
                    None => None,
                    Some(rest) => Some(seq![c] + rest),
                },
            }
        }
    } else {
        match unesc(s.drop_first()) {
            None => None,
            Some(rest) => Some(seq![s[0]] + rest),
        }
    }
}

/// Escaping distributes over concatenation.
pub proof fn lemma_esc_add(a: Seq<char>, b: Seq<char>)
    ensures
        esc(a + b) == esc(a) + esc(b),
    decreases a.len(),
{
    if a.len() == 0 {
        assert(a + b =~= b);
        assert(esc(a) + esc(b) =~= esc(b));
    } else {
        lemma_esc_add(a.drop_first(), b);
        assert((a + b).drop_first() =~= a.drop_first() + b);
        assert(esc(a + b) =~= esc(a) + esc(b));
    }
}

/// Escaped text contains neither a newline nor a space.
pub proof fn lemma_esc_clean(s: Seq<char>)
    ensures
        forall|i: int| 0 <= i < esc(s).len() ==> esc(s)[i] != '\n' && esc(s)[i] != ' ',
    decreases s.len(),
{
    if s.len() > 0 {
        lemma_esc_clean(s.drop_first());
        let c = s[0];
        assert(esc(s) == esc_char(c) + esc(s.drop_first()));
        assert(forall|i: int|
            0 <= i < esc_char(c).len() ==> esc_char(c)[i] != '\n' && esc_char(c)[i] != ' ');
        assert(forall|i: int| 0 <= i < esc(s).len() ==> esc(s)[i] != '\n' && esc(s)[i] != ' ')
            by {
            assert(forall|i: int|
                esc_char(c).len() <= i < esc(s).len() ==> esc(s)[i] == esc(s.drop_first())[
                    i - esc_char(c).len()
                ]);
        };
    }
}

/// Unescaping recovers exactly the escaped payload.
pub proof fn lemma_unesc_esc(s: Seq<char>)
    ensures
        unesc(esc(s)) == Some(s),
    decreases s.len(),
{
    if s.len() == 0 {
    } else {
        lemma_unesc_esc(s.drop_first());
        let c = s[0];
        let tail = esc(s.drop_first());
        if c == '\\' || c == '\n' || c == ' ' {
            assert(esc(s) =~= esc_char(c) + tail);
            assert(esc(s).skip(2) =~= tail);
            assert(unesc(esc(s)) == Some(seq![c] + s.drop_first()));
            assert(seq![c] + s.drop_first() =~= s);
        } else {
            assert(esc(s) =~= seq![c] + tail);
            assert(esc(s).drop_first() =~= tail);
            assert(unesc(esc(s)) == Some(seq![c] + s.drop_first()));
            assert(seq![c] + s.drop_first() =~= s);
        }
    }
}

/// The decimal digit character for a value below ten.
pub open spec fn digit_char(d: int) -> char {
    if d == 0 {
        '0'
    } else if d == 1 {
        '1'
    } else if d == 2 {
        '2'
    } else if d == 3 {
        '3'
    } else if d == 4 {
        '4'
    } else if d == 5 {
        '5'
    } else if d == 6 {
        '6'
    } else if d == 7 {
        '7'
    } else if d == 8 {
        '8'
    } else {
        '9'
    }
}

/// The decimal form of a nonnegative number.
pub open spec fn dec_digits(n: int) -> Seq<char>
    decreases n,
{
    if n < 10 {
        seq![digit_char(n)]
    } else {
        dec_digits(n / 10) + seq![digit_char(n % 10)]
    }
}

/// The decimal form of a nonnegative number, as text.
pub fn dec_str(n: i64) -> (r: String)
    requires
        0 <= n,
    ensures
        r@ == dec_digits(n as int),
    decreases n,
{
    let d = n % 10;
    let c: char = if d == 0 {
        '0'
    } else if d == 1 {
        '1'
    } else if d == 2 {
        '2'
    } else if d == 3 {
        '3'
    } else if d == 4 {
        '4'
    } else if d == 5 {
        '5'
    } else if d == 6 {
        '6'
    } else if d == 7 {
        '7'
    } else if d == 8 {
        '8'
    } else {
        '9'
    };
    if n < 10 {
        let mut out = String::new();
        push_char(&mut out, c);
        proof {
            assert(out@ =~= seq![digit_char(n as int)]);
        }
        out
    } else {
        let mut out = dec_str(n / 10);
        push_char(&mut out, c);
        proof {
            assert(out@ =~= dec_digits(n as int / 10) + seq![digit_char(n as int % 10)]);
        }
        out
    }
}

/// A character does not occur in a sequence.
pub open spec fn free_of(s: Seq<char>, sep: char) -> bool {
    forall|i: int| 0 <= i < s.len() ==> s[i] != sep
}

/// Every part is free of the separator.
pub open spec fn parts_free_of(parts: Seq<Seq<char>>, sep: char) -> bool {
    forall|i: int| 0 <= i < parts.len() ==> free_of(#[trigger] parts[i], sep)
}

/// Terminated framing: each part is written followed by one separator.
pub open spec fn glue(parts: Seq<Seq<char>>, sep: char) -> Seq<char>
    decreases parts.len(),
{
    if parts.len() == 0 {
        Seq::empty()
    } else {
        parts[0] + seq![sep] + glue(parts.drop_first(), sep)
    }
}

/// Inverse of `glue`: splits at each separator; `None` when the text does not
/// end with a separator (a final unterminated part).
pub open spec fn cut(s: Seq<char>, sep: char) -> Option<Seq<Seq<char>>>
    decreases s.len(),
{
    if s.len() == 0 {
        Some(Seq::empty())
    } else if s[0] == sep {
        match cut(s.drop_first(), sep) {
            None => None,
            Some(r) => Some(seq![Seq::<char>::empty()] + r),
        }
    } else {
        match cut(s.drop_first(), sep) {
            None => None,
            Some(r) => if r.len() == 0 {
                None
            } else {
                Some(seq![seq![s[0]] + r[0]] + r.drop_first())
            },
        }
    }
}

/// Cutting one glued part off the front.
pub proof fn lemma_cut_prepend(part: Seq<char>, tail: Seq<char>, sep: char)
    requires
        free_of(part, sep),
        cut(tail, sep) is Some,
    ensures
        cut(part + seq![sep] + tail, sep) == Some(
            seq![part] + cut(tail, sep)->Some_0,
        ),
    decreases part.len(),
{
    let whole = part + seq![sep] + tail;
    if part.len() == 0 {
        assert(whole =~= seq![sep] + tail);
        assert(whole[0] == sep);
        assert(whole.drop_first() =~= tail);
        assert(seq![Seq::<char>::empty()] + cut(tail, sep)->Some_0 =~~= seq![part] + cut(
            tail,
            sep,
        )->Some_0);
    } else {
        lemma_cut_prepend(part.drop_first(), tail, sep);
        let inner = part.drop_first() + seq![sep] + tail;
        assert(whole.drop_first() =~= inner);
        assert(whole[0] == part[0]);
        assert(whole[0] != sep);
        let r = cut(inner, sep)->Some_0;
        assert(r == seq![part.drop_first()] + cut(tail, sep)->Some_0);
        assert(r.len() > 0);
        assert(r[0] == part.drop_first());
        assert(seq![whole[0]] + r[0] =~= part);
        assert(r.drop_first() =~= cut(tail, sep)->Some_0);
        assert(cut(whole, sep) == Some(seq![part] + cut(tail, sep)->Some_0));
    }
}

/// `cut` undoes `glue` whenever no part contains the separator.
pub proof fn lemma_cut_glue(parts: Seq<Seq<char>>, sep: char)
    requires
        parts_free_of(parts, sep),
    ensures
        cut(glue(parts, sep), sep) == Some(parts),
    decreases parts.len(),
{
    if parts.len() == 0 {
    } else {
        lemma_cut_glue(parts.drop_first(), sep);
        lemma_cut_prepend(parts[0], glue(parts.drop_first(), sep), sep);
        assert(seq![parts[0]] + parts.drop_first() =~= parts);
    }
}

/// Appending one more part to a glued text.
pub proof fn lemma_glue_push(parts: Seq<Seq<char>>, part: Seq<char>, sep: char)
    ensures
        glue(parts.push(part), sep) == glue(parts, sep) + part + seq![sep],
    decreases parts.len(),
{
    if parts.len() == 0 {
        assert(parts.push(part).drop_first() =~= parts);
        assert(parts.push(part)[0] == part);
        assert(glue(parts, sep) == Seq::<char>::empty());
        assert(glue(parts.push(part), sep) == part + seq![sep] + glue(parts, sep));
        assert(glue(parts.push(part), sep) =~= part + seq![sep]);
        assert(glue(parts, sep) + part + seq![sep] =~= part + seq![sep]);
    } else {
        lemma_glue_push(parts.drop_first(), part, sep);
        assert(parts.push(part).drop_first() =~= parts.drop_first().push(part));
        assert(parts.push(part)[0] == parts[0]);
        assert(glue(parts.push(part), sep) =~= glue(parts, sep) + part + seq![sep]);
    }
}

/// A glued text stays free of any character that the separator and all parts
/// are free of.
pub proof fn lemma_glue_clean(parts: Seq<Seq<char>>, sep: char, c: char)
    requires
        parts_free_of(parts, c),
        sep != c,
    ensures
        free_of(glue(parts, sep), c),
    decreases parts.len(),
{
    if parts.len() > 0 {
        lemma_glue_clean(parts.drop_first(), sep, c);
        let head = parts[0] + seq![sep];
        assert(free_of(parts[0], c));
        assert(forall|i: int| 0 <= i < head.len() ==> head[i] != c);
        assert(glue(parts, sep) == head + glue(parts.drop_first(), sep));
        assert(forall|i: int|
            head.len() <= i < glue(parts, sep).len() ==> glue(parts, sep)[i] == glue(
                parts.drop_first(),
                sep,
            )[i - head.len()]);
    }
}

/// Escaped form of a whole string.
pub fn esc_str(s: &str) -> (r: String)
    ensures
        r@ == esc(s@),
{
    let mut out = String::new();
    let n = s.unicode_len();
    proof {
        assert(s@.take(0) =~= Seq::<char>::empty());
        assert(out@ =~= esc(s@.take(0)));
    }
    for i in 0..n
        invariant
            n == s@.len(),
            out@ == esc(s@.take(i as int)),
    {
        let c = s.get_char(i);
        let ghost prior = out@;
        if c == '\\' {
            push_char(&mut out, '\\');
            push_char(&mut out, '\\');
        } else if c == '\n' {
            push_char(&mut out, '\\');
            push_char(&mut out, 'n');
        } else if c == ' ' {
            push_char(&mut out, '\\');
            push_char(&mut out, 's');
        } else {
            push_char(&mut out, c);
        }
        proof {
            assert(out@ =~= prior + esc_char(s@[i as int]));
            lemma_esc_add(s@.take(i as int), seq![s@[i as int]]);
            assert(seq![s@[i as int]].drop_first() =~= Seq::<char>::empty());
            assert(esc(Seq::<char>::empty()) == Seq::<char>::empty());
            assert(esc(seq![s@[i as int]]) =~= esc_char(s@[i as int]));
            assert(s@.take(i + 1) =~= s@.take(i as int) + seq![s@[i as int]]);
            assert(out@ =~= esc(s@.take(i + 1)));
        }
    }
    proof {
        assert(s@.take(n as int) =~= s@);
    }
    out
}

/// Unescaped form of a whole string.
pub fn unesc_str(s: &str) -> (r: Option<String>)
    ensures
        match r {
            Some(t) => unesc(s@) == Some(t@),
            None => unesc(s@) is None,
        },
{
    let mut out = String::new();
    let n = s.unicode_len();
    let mut i: usize = 0;
    proof {
        assert(s@.skip(0) =~= s@);
        assert(out@ + s@ =~= s@);
    }
    while i < n
        invariant
            i <= n,
            n == s@.len(),
            unesc(s@) == (match unesc(s@.skip(i as int)) {
                None => None::<Seq<char>>,
                Some(rest) => Some(out@ + rest),
            }),
        decreases n - i,
    {
        let ghost tail = s@.skip(i as int);
        let ghost prior = out@;
        let c = s.get_char(i);
        proof {
            assert(tail[0] == s@[i as int]);
        }
        if c == '\\' {
            if i + 1 == n {
                proof {
                    assert(tail.len() == 1);
                }
                return None;
            }
            let e = s.get_char(i + 1);
            proof {
                assert(tail[1] == s@[i + 1]);
                assert(tail.skip(2) =~= s@.skip(i + 2));
            }
            let d: Option<char> = if e == '\\' {
                Some('\\')
            } else if e == 'n' {
                Some('\n')
            } else if e == 's' {
                Some(' ')
            } else {
                None
            };
            match d {
                None => {
                    return None;
                },
                Some(dc) => {
                    push_char(&mut out, dc);
                    proof {
                        if unesc(s@.skip(i + 2)) is Some {
                            let rest = unesc(s@.skip(i + 2))->Some_0;
                            assert(unesc(tail) == Some(seq![dc] + rest));
                            assert(prior + (seq![dc] + rest) =~= out@ + rest);
                        }
                    }
                    i = i + 2;
                },
            }
        } else {
            push_char(&mut out, c);
            proof {
                assert(tail.drop_first() =~= s@.skip(i + 1));
                if unesc(s@.skip(i + 1)) is Some {
                    let rest = unesc(s@.skip(i + 1))->Some_0;
                    assert(unesc(tail) == Some(seq![c] + rest));
                    assert(prior + (seq![c] + rest) =~= out@ + rest);
                }
            }
            i = i + 1;
        }
    }
    proof {
        assert(s@.skip(i as int) =~= Seq::<char>::empty());
        assert(unesc(Seq::<char>::empty()) == Some(Seq::<char>::empty()));
        assert(out@ + Seq::<char>::empty() =~= out@);
    }
    Some(out)
}

/// What `cut` yields for the whole text, given the parts already finished,
/// the part being collected, and what `cut` yields for the remaining text.
spec fn cut_state(
    done: Seq<Seq<char>>,
    cur: Seq<char>,
    rest: Option<Seq<Seq<char>>>,
) -> Option<Seq<Seq<char>>> {
    match rest {
        None => None,
        Some(r) => if r.len() == 0 {
            if cur.len() == 0 {
                Some(done)
            } else {
                None
            }
        } else {
            Some(done + seq![cur + r[0]] + r.drop_first())
        },
    }
}

/// Splits a whole string at each separator.
pub fn cut_str(s: &str, sep: char) -> (r: Option<Vec<String>>)
    ensures
        match r {
            Some(v) => cut(s@, sep) == Some(v.deep_view()),
            None => cut(s@, sep) is None,
        },
{
    let mut done: Vec<String> = Vec::new();
    let mut cur = String::new();
    let n = s.unicode_len();
    proof {
        assert(s@.skip(0) =~= s@);
        assert(done.deep_view() =~= Seq::<Seq<char>>::empty());
        if cut(s@, sep) is Some {
            let r0 = cut(s@, sep)->Some_0;
            if r0.len() == 0 {
                assert(Seq::<Seq<char>>::empty() =~= r0);
            } else {
                assert(Seq::<Seq<char>>::empty() + seq![Seq::<char>::empty() + r0[0]]
                    + r0.drop_first() =~~= r0);
            }
        }
        assert(cut(s@, sep) == cut_state(done.deep_view(), cur@, cut(s@.skip(0), sep)));
    }
    for i in 0..n
        invariant
            n == s@.len(),
            cut(s@, sep) == cut_state(done.deep_view(), cur@, cut(s@.skip(i as int), sep)),
    {
        let ghost tail = s@.skip(i as int);
        let ghost old_done = done.deep_view();
        let ghost old_cur = cur@;
        let c = s.get_char(i);
        proof {
            assert(tail[0] == s@[i as int]);
            assert(tail.drop_first() =~= s@.skip(i + 1));
        }
        if c == sep {
            done.push(cur);
            cur = String::new();
            proof {
                assert(done.deep_view() =~= old_done.push(old_cur));
                if cut(s@.skip(i + 1), sep) is Some {
                    let r2 = cut(s@.skip(i + 1), sep)->Some_0;
                    assert(cut(tail, sep) == Some(seq![Seq::<char>::empty()] + r2));
                    let glued = seq![Seq::<char>::empty()] + r2;
                    assert(glued.len() > 0);
                    assert(glued[0] == Seq::<char>::empty());
                    assert(glued.drop_first() =~= r2);
                    assert(old_cur + glued[0] =~= old_cur);
                    if r2.len() == 0 {
                        assert(old_done + seq![old_cur + glued[0]] + glued.drop_first()
                            =~~= old_done.push(old_cur));
                    } else {
                        assert(old_done + seq![old_cur + glued[0]] + glued.drop_first()
                            =~~= old_done.push(old_cur) + seq![Seq::<char>::empty() + r2[0]]
                            + r2.drop_first());
                    }
                }
                assert(cut(s@, sep) == cut_state(done.deep_view(), cur@, cut(s@.skip(i + 1), sep)));
            }
        } else {
            push_char(&mut cur, c);
            proof {
                if cut(s@.skip(i + 1), sep) is Some {
                    let r2 = cut(s@.skip(i + 1), sep)->Some_0;
                    if r2.len() == 0 {
                        assert(cut(tail, sep) is None);
                    } else {
                        let prep = seq![seq![tail[0]] + r2[0]] + r2.drop_first();
                        assert(cut(tail, sep) == Some(prep));
                        assert(prep.len() > 0);
                        assert(prep[0] == seq![tail[0]] + r2[0]);
                        assert(prep.drop_first() =~= r2.drop_first());
                        assert(old_cur + prep[0] =~= cur@ + r2[0]);
                        assert(old_done + seq![old_cur + prep[0]] + prep.drop_first()
                            =~~= old_done + seq![cur@ + r2[0]] + r2.drop_first());
                    }
                }
                assert(cut(s@, sep) == cut_state(done.deep_view(), cur@, cut(s@.skip(i + 1), sep)));
            }
        }
    }
    proof {
        assert(s@.skip(n as int) =~= Seq::<char>::empty());
        assert(cut(Seq::<char>::empty(), sep) == Some(Seq::<Seq<char>>::empty()));
    }
    if cur.as_str().is_empty() {
        Some(done)
    } else {
        None
    }
}

} // verus!

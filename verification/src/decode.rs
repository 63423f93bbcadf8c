//! The escape dialect used inside quoted attribute text.
//!
//! Escapes, left to right: `\X2\` starts a run of four-hex-digit
//! groups, each one code point, closed by `\X0\`; `\X\` is followed by
//! two hex digits giving one extended-Latin code; `\S\` shifts the
//! following character's code up by 128; `\\` is a literal backslash;
//! a doubled single quote is one literal quote.  A malformed hex group
//! or an unrepresentable code is dropped silently; an unrecognized
//! escape passes the backslash through.

use vstd::prelude::*;

verus! {

use crate::text::chars_of_str;
use crate::text::chars_to_string;

pub open spec fn is_hex_char(c: char) -> bool {
    (48 <= c as u32 <= 57) || (65 <= c as u32 <= 70) || (97 <= c as u32 <= 102)
}

pub open spec fn hex_val(c: char) -> int {
    if 48 <= c as u32 <= 57 {
        c as u32 - 48
    } else if 65 <= c as u32 <= 70 {
        c as u32 - 55
    } else {
        c as u32 - 87
    }
}

pub open spec fn all_hex(s: Seq<char>) -> bool {
    forall|i: int| 0 <= i < s.len() ==> is_hex_char(#[trigger] s[i])
}

/// The code denoted by a four-digit hex group.
pub open spec fn hex4_val(g: Seq<char>) -> int {
    hex_val(g[0]) * 4096 + hex_val(g[1]) * 256 + hex_val(g[2]) * 16 + hex_val(g[3])
}

/// Whether a code is a Unicode scalar value.
pub open spec fn is_scalar_code(v: int) -> bool {
    (0 <= v < 0xD800) || (0xE000 <= v < 0x110000)
}

/// The characters decoded from a run of four-digit hex groups; an
/// incomplete, malformed or unrepresentable group yields nothing.
pub open spec fn spec_hex_groups(h: Seq<char>) -> Seq<char>
    decreases h.len(),
{
    if h.len() < 4 {
        Seq::<char>::empty()
    } else {
        let g = h.take(4);
        let code = hex4_val(g);
        let rest = spec_hex_groups(h.skip(4));
        if all_hex(g) && is_scalar_code(code) {
            seq![((code as u32) as char)] + rest
        } else {
            rest
        }
    }
}

/// Length of the prefix that stops at the first backslash.
pub open spec fn spec_hex_run_len(s: Seq<char>) -> int
    decreases s.len(),
{
    if s.len() == 0 {
        0
    } else if s[0] == '\\' {
        0
    } else {
        1 + spec_hex_run_len(s.skip(1))
    }
}

proof fn lemma_hex_run_len_bounds(s: Seq<char>)
    ensures
        0 <= spec_hex_run_len(s) <= s.len(),
    decreases s.len(),
{
    if s.len() > 0 && s[0] != '\\' {
        lemma_hex_run_len_bounds(s.skip(1));
    }
}

/// The decoded form of the interior of a quoted attribute token.
pub open spec fn spec_decode(s: Seq<char>) -> Seq<char>
    decreases s.len(), 3nat,
{
    if s.len() == 0 {
        Seq::<char>::empty()
    } else if s[0] == '\\' {
        if s.len() >= 2 && s[1] == 'X' {
            if s.len() >= 3 && s[2] == '2' {
                spec_decode_x2(s)
            } else if s.len() >= 3 && s[2] == '\\' {
                spec_decode_x1(s)
            } else {
                seq!['\\', 'X'] + spec_decode(s.skip(2))
            }
        } else if s.len() >= 2 && s[1] == '\\' {
            seq!['\\'] + spec_decode(s.skip(2))
        } else if s.len() >= 2 && s[1] == 'S' {
            if s.len() >= 4 {
                let code = (s[3] as u32) + 128;
                if is_scalar_code(code as int) {
                    seq![((code as u32) as char)] + spec_decode(s.skip(4))
                } else {
                    spec_decode(s.skip(4))
                }
            } else {
                Seq::<char>::empty()
            }
        } else {
            seq!['\\'] + spec_decode(s.skip(1))
        }
    } else if s[0] == '\'' {
        if s.len() >= 2 && s[1] == '\'' {
            seq!['\''] + spec_decode(s.skip(2))
        } else {
            seq!['\''] + spec_decode(s.skip(1))
        }
    } else {
        seq![s[0]] + spec_decode(s.skip(1))
    }
}

/// A `\X2\` block: the hex run after the four-character opener, closed
/// by a four-character closer when one follows.
pub open spec fn spec_decode_x2(s: Seq<char>) -> Seq<char>
    decreases s.len(), 2nat,
{
    let t = if s.len() >= 4 {
        s.skip(4)
    } else {
        s.skip(s.len() as int)
    };
    let run = spec_hex_run_len(t);
    let hex = t.take(run);
    let after = t.skip(run);
    let rest = if after.len() > 4 {
        after.skip(4)
    } else {
        after.skip(after.len() as int)
    };
    if s.len() >= 3 {
        spec_hex_groups(hex) + spec_decode_x2_rest(s, rest)
    } else {
        Seq::<char>::empty()
    }
}

/// The text after a `\X2\` block, decoded; split out so that the
/// recursion visibly shrinks the sequence.
pub open spec fn spec_decode_x2_rest(s: Seq<char>, rest: Seq<char>) -> Seq<char>
    decreases s.len(), 1nat,
{
    if rest.len() < s.len() {
        spec_decode(rest)
    } else {
        Seq::<char>::empty()
    }
}

/// A `\X\` escape: up to two following characters as one hex code.
pub open spec fn spec_decode_x1(s: Seq<char>) -> Seq<char>
    decreases s.len(), 2nat,
    when s.len() >= 3
{
    let k = if s.len() - 3 >= 2 {
        2int
    } else {
        s.len() - 3
    };
    let h = s.subrange(3, 3 + k);
    let rest = spec_decode(s.skip(3 + k));
    if k >= 1 && all_hex(h) {
        let code = if k == 2 {
            hex_val(h[0]) * 16 + hex_val(h[1])
        } else {
            hex_val(h[0])
        };
        seq![((code as u32) as char)] + rest
    } else {
        rest
    }
}

/// Relies on `char::from_u32`: `Some` exactly on Unicode scalar
/// values, returning the character with that code.
#[verifier::external_body]
fn char_from_u32(c: u32) -> (r: Option<char>)
    ensures
        r is Some <==> is_scalar_code(c as int),
        r matches Some(v) ==> v as u32 == c,
{
    char::from_u32(c)
}

fn is_hex(c: char) -> (r: bool)
    ensures
        r == is_hex_char(c),
{
    let u = c as u32;
    (48 <= u && u <= 57) || (65 <= u && u <= 70) || (97 <= u && u <= 102)
}

fn hex_digit(c: char) -> (r: u32)
    requires
        is_hex_char(c),
    ensures
        r == hex_val(c),
        r < 16,
{
    let u = c as u32;
    if 48 <= u && u <= 57 {
        u - 48
    } else if 65 <= u && u <= 70 {
        u - 55
    } else {
        u - 87
    }
}

/// Decodes the hex groups of `s[from..to]`, four digits to a code
/// point, appending the characters to `out`.
fn push_hex_groups(s: &Vec<char>, from: usize, to: usize, out: &mut Vec<char>)
    requires
        from <= to <= s@.len(),
    ensures
        final(out)@ == old(out)@ + spec_hex_groups(s@.subrange(from as int, to as int)),
{
    let ghost h = s@.subrange(from as int, to as int);
    let mut j: usize = from;
    while to - j >= 4
        invariant
            from <= j <= to <= s@.len(),
            h == s@.subrange(from as int, to as int),
            spec_hex_groups(h) =~= out@.skip(old(out)@.len() as int) + spec_hex_groups(
                s@.subrange(j as int, to as int),
            ),
            out@.len() >= old(out)@.len(),
            out@.take(old(out)@.len() as int) == old(out)@,
        decreases to - j,
    {
        let ghost cur = s@.subrange(j as int, to as int);
        proof {
            assert(cur.take(4) =~= s@.subrange(j as int, j + 4));
            assert(cur.skip(4) =~= s@.subrange(j + 4, to as int));
        }
        let c0 = s[j];
        let c1 = s[j + 1];
        let c2 = s[j + 2];
        let c3 = s[j + 3];
        let ghost g = cur.take(4);
        if is_hex(c0) && is_hex(c1) && is_hex(c2) && is_hex(c3) {
            proof {
                assert(g[0] == c0 && g[1] == c1 && g[2] == c2 && g[3] == c3);
                assert(all_hex(g)) by {
                    assert(forall|i: int| 0 <= i < 4 ==> g[i] == cur[i]);
                }
            }
            let code: u32 = hex_digit(c0) * 4096 + hex_digit(c1) * 256 + hex_digit(c2) * 16
                + hex_digit(c3);
            proof {
                assert(code == hex4_val(g));
            }
            match char_from_u32(code) {
                Some(ch) => {
                    proof {
                        vstd::utf8::char_u32_cast(ch, code);
                    }
                    out.push(ch);
                },
                None => {
                },
            }
        } else {
            proof {
                assert(!all_hex(g)) by {
                    if !is_hex_char(c0) {
                        assert(g[0] == c0);
                    } else if !is_hex_char(c1) {
                        assert(g[1] == c1);
                    } else if !is_hex_char(c2) {
                        assert(g[2] == c2);
                    } else {
                        assert(g[3] == c3);
                    }
                }
            }
        }
        j = j + 4;
        proof {
            assert(spec_hex_groups(h) =~= out@.skip(old(out)@.len() as int) + spec_hex_groups(
                s@.subrange(j as int, to as int),
            ));
            assert(out@.take(old(out)@.len() as int) =~= old(out)@);
        }
    }
    proof {
        assert(spec_hex_groups(s@.subrange(j as int, to as int)) == Seq::<char>::empty());
        assert(out@ =~= old(out)@ + spec_hex_groups(h));
    }
}

/// Decodes the escape dialect of a quoted token's interior.
#[verifier::rlimit(100)]
pub fn decode_step_chars(cs: &Vec<char>) -> (out: Vec<char>)
    ensures
        out@ == spec_decode(cs@),
{
    let n = cs.len();
    let mut out: Vec<char> = Vec::new();
    let mut i: usize = 0;
    proof {
        assert(cs@.skip(0) =~= cs@);
    }
    while i < n
        invariant
            i <= n,
            n == cs@.len(),
            spec_decode(cs@) =~= out@ + spec_decode(cs@.skip(i as int)),
        decreases n - i,
    {
        let ghost rem = cs@.skip(i as int);
        proof {
            assert(rem[0] == cs@[i as int]);
            if i + 1 < n {
                assert(rem[1] == cs@[i + 1]);
            }
            if i + 2 < n {
                assert(rem[2] == cs@[i + 2]);
            }
            if i + 3 < n {
                assert(rem[3] == cs@[i + 3]);
            }
            assert(rem.skip(1) =~= cs@.skip(i + 1));
            if i + 2 <= n {
                assert(rem.skip(2) =~= cs@.skip(i + 2));
            }
        }
        let c = cs[i];
        if c == '\\' {
            if i + 1 < n && cs[i + 1] == 'X' {
                if i + 2 < n && cs[i + 2] == '2' {
                    // opener: backslash, X, 2, and the closing backslash
                    let q0: usize = if n - i >= 4 {
                        i + 4
                    } else {
                        n
                    };
                    proof {
                        if i + 4 <= n {
                            assert(rem.skip(4) =~= cs@.skip(q0 as int));
                        } else {
                            assert(rem.skip(rem.len() as int) =~= cs@.skip(q0 as int));
                        }
                    }
                    let ghost t = cs@.skip(q0 as int);
                    // hex run up to the next backslash
                    let mut q: usize = q0;
                    while q < n && cs[q] != '\\'
                        invariant
                            q0 <= q <= n,
                            n == cs@.len(),
                            t == cs@.skip(q0 as int),
                            spec_hex_run_len(t) == (q - q0) + spec_hex_run_len(
                                cs@.skip(q as int),
                            ),
                        decreases n - q,
                    {
                        proof {
                            assert(cs@.skip(q as int)[0] == cs@[q as int]);
                            assert(cs@.skip(q as int).skip(1) =~= cs@.skip(q + 1));
                        }
                        q = q + 1;
                    }
                    proof {
                        if q < n {
                            assert(cs@.skip(q as int)[0] == '\\');
                            assert(spec_hex_run_len(cs@.skip(q as int)) == 0);
                        } else {
                            assert(cs@.skip(q as int).len() == 0);
                        }
                        assert(spec_hex_run_len(t) == q - q0);
                        lemma_hex_run_len_bounds(t);
                        assert(t.take(q - q0) =~= cs@.subrange(q0 as int, q as int));
                        assert(t.skip(q - q0) =~= cs@.skip(q as int));
                    }
                    // skip the four-character closer when one follows
                    let next_i: usize = if q < n {
                        if n - q >= 4 {
                            q + 4
                        } else {
                            n
                        }
                    } else {
                        n
                    };
                    proof {
                        let after = t.skip(q - q0);
                        if q < n {
                            if after.len() > 4 {
                                assert(after.skip(4) =~= cs@.skip(next_i as int));
                            } else {
                                assert(after.skip(after.len() as int) =~= cs@.skip(
                                    next_i as int,
                                ));
                            }
                        } else {
                            assert(after.len() == 0);
                            assert(after.skip(0) =~= cs@.skip(next_i as int));
                        }
                        let t2 = if rem.len() >= 4 {
                            rem.skip(4)
                        } else {
                            rem.skip(rem.len() as int)
                        };
                        assert(t2 == t);
                        let run2 = spec_hex_run_len(t2);
                        assert(run2 == q - q0);
                        let hex2 = t2.take(run2);
                        assert(hex2 == cs@.subrange(q0 as int, q as int));
                        let after2 = t2.skip(run2);
                        assert(after2 == cs@.skip(q as int));
                        let rest2 = if after2.len() > 4 {
                            after2.skip(4)
                        } else {
                            after2.skip(after2.len() as int)
                        };
                        assert(rest2 =~= cs@.skip(next_i as int));
                        assert(rest2.len() < rem.len());
                        assert(spec_decode_x2_rest(rem, rest2) == spec_decode(rest2));
                        assert(spec_decode_x2(rem) == spec_hex_groups(hex2) + spec_decode_x2_rest(
                            rem,
                            rest2,
                        ));
                        assert(spec_decode(rem) == spec_decode_x2(rem));
                        assert(spec_decode(rem) == spec_hex_groups(
                            cs@.subrange(q0 as int, q as int),
                        ) + spec_decode(cs@.skip(next_i as int)));
                    }
                    push_hex_groups(cs, q0, q, &mut out);
                    i = next_i;
                    proof {
                        assert(spec_decode(cs@) =~= out@ + spec_decode(cs@.skip(i as int)));
                    }
                } else if i + 2 < n && cs[i + 2] == '\\' {
                    // two hex digits when available
                    let avail: usize = n - (i + 3);
                    let k: usize = if avail >= 2 {
                        2
                    } else {
                        avail
                    };
                    let ghost h = rem.subrange(3, 3 + k as int);
                    proof {
                        assert(h =~= cs@.subrange(i + 3, i + 3 + k as int));
                        assert(rem.skip(3 + k as int) =~= cs@.skip(i + 3 + k as int));
                    }
                    if k == 2 {
                        let c0 = cs[i + 3];
                        let c1 = cs[i + 4];
                        proof {
                            assert(h[0] == c0 && h[1] == c1);
                        }
                        if is_hex(c0) && is_hex(c1) {
                            proof {
                                assert(all_hex(h));
                            }
                            let code: u32 = hex_digit(c0) * 16 + hex_digit(c1);
                            match char_from_u32(code) {
                                Some(ch) => {
                                    proof {
                                        vstd::utf8::char_u32_cast(ch, code);
                                    }
                                    out.push(ch);
                                },
                                None => {
                                    proof {
                                        assert(false);
                                    }
                                },
                            }
                        } else {
                            proof {
                                assert(!all_hex(h)) by {
                                    if !is_hex_char(c0) {
                                        assert(h[0] == c0);
                                    } else {
                                        assert(h[1] == c1);
                                    }
                                }
                            }
                        }
                    } else if k == 1 {
                        let c0 = cs[i + 3];
                        proof {
                            assert(h[0] == c0);
                        }
                        if is_hex(c0) {
                            proof {
                                assert(all_hex(h));
                            }
                            let code: u32 = hex_digit(c0);
                            match char_from_u32(code) {
                                Some(ch) => {
                                    proof {
                                        vstd::utf8::char_u32_cast(ch, code);
                                    }
                                    out.push(ch);
                                },
                                None => {
                                    proof {
                                        assert(false);
                                    }
                                },
                            }
                        } else {
                            proof {
                                assert(!all_hex(h)) by {
                                    assert(h[0] == c0);
                                }
                            }
                        }
                    } else {
                        proof {
                            assert(h.len() == 0);
                        }
                    }
                    i = i + 3 + k;
                    proof {
                        assert(spec_decode(rem) == spec_decode_x1(rem));
                        assert(spec_decode(cs@) =~= out@ + spec_decode(cs@.skip(i as int)));
                    }
                } else {
                    out.push('\\');
                    out.push('X');
                    i = i + 2;
                    proof {
                        assert(spec_decode(cs@) =~= out@ + spec_decode(cs@.skip(i as int)));
                    }
                }
            } else if i + 1 < n && cs[i + 1] == '\\' {
                out.push('\\');
                i = i + 2;
                proof {
                    assert(spec_decode(cs@) =~= out@ + spec_decode(cs@.skip(i as int)));
                }
            } else if i + 1 < n && cs[i + 1] == 'S' {
                if n - i >= 4 {
                    proof {
                        assert(rem.skip(4) =~= cs@.skip(i + 4));
                    }
                    let c3 = cs[i + 3];
                    proof {
                        vstd::utf8::char_is_scalar(c3);
                        assert((c3 as u32) < 0x110000);
                    }
                    let code: u32 = (c3 as u32) + 128;
                    match char_from_u32(code) {
                        Some(ch) => {
                            proof {
                                vstd::utf8::char_u32_cast(ch, code);
                            }
                            out.push(ch);
                        },
                        None => {
                        },
                    }
                    i = i + 4;
                } else {
                    proof {
                        assert(spec_decode(rem) == Seq::<char>::empty());
                    }
                    i = n;
                }
                proof {
                    assert(spec_decode(cs@) =~= out@ + spec_decode(cs@.skip(i as int)));
                }
            } else {
                out.push('\\');
                i = i + 1;
                proof {
                    assert(spec_decode(cs@) =~= out@ + spec_decode(cs@.skip(i as int)));
                }
            }
        } else if c == '\'' {
            if i + 1 < n && cs[i + 1] == '\'' {
                out.push('\'');
                i = i + 2;
            } else {
                out.push('\'');
                i = i + 1;
            }
            proof {
                assert(spec_decode(cs@) =~= out@ + spec_decode(cs@.skip(i as int)));
            }
        } else {
            out.push(c);
            i = i + 1;
            proof {
                assert(spec_decode(cs@) =~= out@ + spec_decode(cs@.skip(i as int)));
            }
        }
    }
    proof {
        assert(cs@.skip(n as int).len() == 0);
        assert(out@ =~= spec_decode(cs@));
    }
    out
}

/// Decodes the escape dialect used inside quoted attribute text.
pub fn decode_step_string(s: &str) -> (r: String)
    ensures
        r@ == spec_decode(s@),
{
    let cs = chars_of_str(s);
    let out = decode_step_chars(&cs);
    chars_to_string(&out)
}

} // verus!

//! JSON string literals over bytes: quoting, escaping, and parsing.  The
//! printer writes a minimal escape set — the quote and the backslash get a
//! two-byte escape, control bytes get a six-byte `\u00..` escape, and
//! every other byte stands for itself.  The parser inverts the printer and
//! also accepts the rest of the standard escape set, which other JSON
//! producers emit for the same bytes.

use vstd::prelude::*;

use crate::jnum::hex_byte;
use crate::jnum::hex_val;
use crate::jnum::is_hex_digit;

verus! {

broadcast use vstd::seq_lib::group_seq_properties;

/// The escape of one byte.
pub open spec fn esc_byte(b: u8) -> Seq<u8> {
    if b == 0x22 {
        seq![0x5cu8, 0x22u8]
    } else if b == 0x5c {
        seq![0x5cu8, 0x5cu8]
    } else if b < 0x20 {
        seq![0x5cu8, 0x75u8, 0x30u8, 0x30u8, hex_byte((b / 16) as nat), hex_byte((b % 16) as nat)]
    } else {
        seq![b]
    }
}

/// The byte a standard two-character escape stands for: the escapes this
/// crate writes (`\"` and `\\`) and the rest of the JSON set (`\/`,
/// `\b`, `\f`, `\n`, `\r`, `\t`), which other JSON producers emit for
/// the same bytes.
pub open spec fn short_escape_value(b: u8) -> Option<u8> {
    if b == 0x22 {
        Some(0x22u8)
    } else if b == 0x5c {
        Some(0x5cu8)
    } else if b == 0x2f {
        Some(0x2fu8)
    } else if b == 0x62 {
        Some(0x08u8)
    } else if b == 0x66 {
        Some(0x0cu8)
    } else if b == 0x6e {
        Some(0x0au8)
    } else if b == 0x72 {
        Some(0x0du8)
    } else if b == 0x74 {
        Some(0x09u8)
    } else {
        None
    }
}

/// The byte a standard two-character escape stands for.
fn short_escape(b: u8) -> (r: Option<u8>)
    ensures
        r == short_escape_value(b),
{
    if b == 0x22 {
        Some(0x22)
    } else if b == 0x5c {
        Some(0x5c)
    } else if b == 0x2f {
        Some(0x2f)
    } else if b == 0x62 {
        Some(0x08)
    } else if b == 0x66 {
        Some(0x0c)
    } else if b == 0x6e {
        Some(0x0a)
    } else if b == 0x72 {
        Some(0x0d)
    } else if b == 0x74 {
        Some(0x09)
    } else {
        None
    }
}

/// The escape of a byte string.
pub open spec fn spec_escape(s: Seq<u8>) -> Seq<u8>
    decreases s.len(),
{
    if s.len() == 0 {
        Seq::empty()
    } else {
        esc_byte(s[0]) + spec_escape(s.drop_first())
    }
}

/// A quoted JSON string literal.
pub open spec fn spec_quoted(s: Seq<u8>) -> Seq<u8> {
    seq![0x22u8] + spec_escape(s) + seq![0x22u8]
}

/// Escaping distributes over appending one byte.
pub proof fn lemma_escape_append(s: Seq<u8>, b: u8)
    ensures
        spec_escape(s.push(b)) == spec_escape(s) + esc_byte(b),
    decreases s.len(),
{
    if s.len() == 0 {
        reveal_with_fuel(spec_escape, 2);
        assert(s.push(b).drop_first() =~= Seq::<u8>::empty());
        assert(s.push(b)[0] == b);
        assert(spec_escape(s.push(b)) == esc_byte(b) + spec_escape(Seq::<u8>::empty()));
        assert(esc_byte(b) + Seq::<u8>::empty() =~= esc_byte(b));
        assert(spec_escape(s) + esc_byte(b) =~= esc_byte(b));
    } else {
        assert(s.push(b).drop_first() =~= s.drop_first().push(b));
        lemma_escape_append(s.drop_first(), b);
        assert(spec_escape(s.push(b)) == esc_byte(s[0]) + (spec_escape(s.drop_first()) + esc_byte(
            b,
        )));
        assert(esc_byte(s[0]) + (spec_escape(s.drop_first()) + esc_byte(b)) =~= (esc_byte(s[0])
            + spec_escape(s.drop_first())) + esc_byte(b));
    }
}

/// Append the quoted, escaped form of `s`.
pub fn push_json_string(out: &mut Vec<u8>, s: &Vec<u8>)
    ensures
        final(out)@ == old(out)@ + spec_quoted(s@),
{
    out.push(0x22);
    let mut k: usize = 0;
    while k < s.len()
        invariant
            k <= s@.len(),
            out@ == old(out)@ + seq![0x22u8] + spec_escape(s@.take(k as int)),
        decreases s@.len() - k,
    {
        let b = s[k];
        if b == 0x22 {
            out.push(0x5c);
            out.push(0x22);
        } else if b == 0x5c {
            out.push(0x5c);
            out.push(0x5c);
        } else if b < 0x20 {
            out.push(0x5c);
            out.push(0x75);
            out.push(0x30);
            out.push(0x30);
            out.push(0x30 + b / 16);
            let lo = b % 16;
            if lo < 10 {
                out.push(0x30 + lo);
            } else {
                out.push(0x61 + (lo - 10));
            }
            proof {
                assert(0x30 + b / 16 == hex_byte((b / 16) as nat));
                assert((if lo < 10 {
                    (0x30 + lo) as u8
                } else {
                    (0x61 + (lo - 10)) as u8
                }) == hex_byte((b % 16) as nat));
            }
        } else {
            out.push(b);
        }
        proof {
            lemma_escape_append(s@.take(k as int), b);
            assert(s@.take(k + 1) =~= s@.take(k as int).push(b));
            assert(out@ =~= old(out)@ + seq![0x22u8] + spec_escape(s@.take(k + 1)));
        }
        k = k + 1;
    }
    out.push(0x22);
    proof {
        assert(s@.take(s@.len() as int) =~= s@);
        assert(out@ =~= old(out)@ + spec_quoted(s@));
    }
}

/// Parse the body of a JSON string literal (after the opening quote):
/// bytes up to an unescaped closing quote, unescaping as written by
/// `spec_escape` and also accepting the rest of the standard JSON escape
/// set.  Anything else — a bare control byte, an unknown escape, or the
/// end of input before a closing quote — is a failure.
pub open spec fn spec_parse_jstr_body(s: Seq<u8>, i: int) -> Option<(Seq<u8>, int)>
    decreases s.len() - i
    when 0 <= i <= s.len()
{
    if i >= s.len() {
        None
    } else if s[i] == 0x22 {
        Some((Seq::empty(), i + 1))
    } else if s[i] == 0x5c {
        if i + 2 <= s.len() && short_escape_value(s[i + 1]) is Some {
            match spec_parse_jstr_body(s, i + 2) {
                Some((t, j)) => Some((seq![short_escape_value(s[i + 1])->Some_0] + t, j)),
                None => None,
            }
        } else if i + 6 <= s.len() && s[i + 1] == 0x75 && s[i + 2] == 0x30 && s[i + 3] == 0x30
            && is_hex_digit(s[i + 4]) && is_hex_digit(s[i + 5]) {
            match spec_parse_jstr_body(s, i + 6) {
                Some((t, j)) => Some(
                    (seq![(hex_val(s[i + 4]) * 16 + hex_val(s[i + 5])) as u8] + t, j),
                ),
                None => None,
            }
        } else {
            None
        }
    } else if s[i] < 0x20 {
        None
    } else {
        match spec_parse_jstr_body(s, i + 1) {
            Some((t, j)) => Some((seq![s[i]] + t, j)),
            None => None,
        }
    }
}

/// Parse a JSON string literal, opening quote included.
pub open spec fn spec_parse_jstr(s: Seq<u8>, i: int) -> Option<(Seq<u8>, int)>
    recommends
        0 <= i <= s.len(),
{
    if i < s.len() && s[i] == 0x22 {
        spec_parse_jstr_body(s, i + 1)
    } else {
        None
    }
}

/// A successful string-body parse lands strictly further, within bounds.
pub proof fn lemma_parse_jstr_body_shape(s: Seq<u8>, i: int)
    requires
        0 <= i <= s.len(),
    ensures
        match spec_parse_jstr_body(s, i) {
            Some((t, j)) => i < j <= s.len(),
            None => true,
        },
    decreases s.len() - i,
{
    if i < s.len() {
        if s[i] == 0x22 {
        } else if s[i] == 0x5c {
            if i + 2 <= s.len() && short_escape_value(s[i + 1]) is Some {
                lemma_parse_jstr_body_shape(s, i + 2);
            } else if i + 6 <= s.len() && s[i + 1] == 0x75 && s[i + 2] == 0x30 && s[i + 3] == 0x30
                && is_hex_digit(s[i + 4]) && is_hex_digit(s[i + 5]) {
                lemma_parse_jstr_body_shape(s, i + 6);
            }
        } else if s[i] < 0x20 {
        } else {
            lemma_parse_jstr_body_shape(s, i + 1);
        }
    }
}

/// Parse a JSON string literal at position `i`.
pub fn parse_json_string(s: &Vec<u8>, i: usize) -> (r: Option<(Vec<u8>, usize)>)
    requires
        i <= s@.len(),
    ensures
        match spec_parse_jstr(s@, i as int) {
            Some((t, j)) => r matches Some((rt, rj)) && rt@ == t && rj == j,
            None => r is None,
        },
{
    if !(i < s.len() && s[i] == 0x22) {
        return None;
    }
    let mut acc: Vec<u8> = Vec::new();
    let mut cur: usize = i + 1;
    loop
        invariant_except_break
            i + 1 <= cur <= s@.len() + 1,
            cur <= s@.len() + 1,
            acc@.len() <= cur,
            ({
                let whole = spec_parse_jstr_body(s@, i + 1);
                cur <= s@.len() ==> whole == match spec_parse_jstr_body(s@, cur as int) {
                    Some((t, j)) => Some::<(Seq<u8>, int)>((acc@ + t, j)),
                    None => None::<(Seq<u8>, int)>,
                }
            }),
            cur > s@.len() ==> spec_parse_jstr_body(s@, i + 1) is None,
        ensures
            match spec_parse_jstr_body(s@, i + 1) {
                Some((t, j)) => acc@ == t && cur == j,
                None => false,
            },
        decreases s@.len() - cur,
    {
        if cur >= s.len() {
            proof {
                if cur == s@.len() {
                    assert(spec_parse_jstr_body(s@, cur as int) is None);
                }
            }
            return None;
        }
        let b = s[cur];
        if b == 0x22 {
            proof {
                assert(spec_parse_jstr_body(s@, cur as int) == Some::<(Seq<u8>, int)>((
                    Seq::empty(),
                    cur + 1,
                )));
                assert(acc@ + Seq::<u8>::empty() =~= acc@);
            }
            cur = cur + 1;
            break;
        } else if b == 0x5c {
            let mapped: Option<u8> = if s.len() - cur >= 2 {
                short_escape(s[cur + 1])
            } else {
                None
            };
            if let Some(c) = mapped {
                proof {
                    lemma_parse_jstr_body_shape(s@, cur + 2);
                    if spec_parse_jstr_body(s@, cur + 2) is Some {
                        let (t, j) = spec_parse_jstr_body(s@, cur + 2)->Some_0;
                        assert((acc@ + seq![c]) + t =~= acc@ + (seq![c] + t));
                    }
                }
                acc.push(c);
                cur = cur + 2;
            } else if s.len() - cur >= 6 && s[cur + 1] == 0x75 && s[cur + 2] == 0x30 && s[cur + 3]
                == 0x30 && (0x30 <= s[cur + 4] && s[cur + 4] <= 0x39 || 0x61 <= s[cur + 4] && s[cur
                + 4] <= 0x66) && (0x30 <= s[cur + 5] && s[cur + 5] <= 0x39 || 0x61 <= s[cur + 5]
                && s[cur + 5] <= 0x66) {
                let h1 = s[cur + 4];
                let h2 = s[cur + 5];
                let v1: u8 = if h1 <= 0x39 {
                    h1 - 0x30
                } else {
                    h1 - 0x61 + 10
                };
                let v2: u8 = if h2 <= 0x39 {
                    h2 - 0x30
                } else {
                    h2 - 0x61 + 10
                };
                let c = v1 * 16 + v2;
                proof {
                    assert(c == (hex_val(s@[cur + 4]) * 16 + hex_val(s@[cur + 5])) as u8);
                    lemma_parse_jstr_body_shape(s@, cur + 6);
                    if spec_parse_jstr_body(s@, cur + 6) is Some {
                        let (t, j) = spec_parse_jstr_body(s@, cur + 6)->Some_0;
                        assert((acc@ + seq![c]) + t =~= acc@ + (seq![c] + t));
                    }
                }
                acc.push(c);
                cur = cur + 6;
            } else {
                proof {
                    assert(spec_parse_jstr_body(s@, cur as int) is None);
                }
                return None;
            }
        } else if b < 0x20 {
            proof {
                assert(spec_parse_jstr_body(s@, cur as int) is None);
            }
            return None;
        } else {
            proof {
                lemma_parse_jstr_body_shape(s@, cur + 1);
                if spec_parse_jstr_body(s@, cur + 1) is Some {
                    let (t, j) = spec_parse_jstr_body(s@, cur + 1)->Some_0;
                    assert((acc@ + seq![b]) + t =~= acc@ + (seq![b] + t));
                }
            }
            acc.push(b);
            cur = cur + 1;
        }
    }
    Some((acc, cur))
}

/// The parser reads back exactly what the printer wrote: after the escape
/// of `content` and a closing quote, the body parse returns `content`.
pub proof fn lemma_parse_body_of_escape(s: Seq<u8>, i: int, content: Seq<u8>)
    requires
        0 <= i,
        i + spec_escape(content).len() + 1 <= s.len(),
        s.subrange(i, i + spec_escape(content).len()) == spec_escape(content),
        s[i + spec_escape(content).len()] == 0x22,
    ensures
        spec_parse_jstr_body(s, i) == Some((content, i + spec_escape(content).len() + 1)),
    decreases content.len(),
{
    let esc = spec_escape(content);
    if content.len() == 0 {
        assert(esc.len() == 0);
        assert(s[i] == 0x22);
    } else {
        let b = content[0];
        let rest = content.drop_first();
        let eb = esc_byte(b);
        let erest = spec_escape(rest);
        assert(esc == eb + erest);
        assert(esc.len() == eb.len() + erest.len());
        assert forall|m: int| 0 <= m < esc.len() implies s[i + m] == esc[m] by {
            assert(s.subrange(i, i + esc.len())[m] == s[i + m]);
        }
        assert forall|m: int| 0 <= m < eb.len() implies s[i + m] == eb[m] by {
            assert(esc[m] == eb[m]);
        }
        assert forall|m: int|
            0 <= m < erest.len() implies s.subrange(i + eb.len(), i + eb.len() + erest.len())[m]
            == erest[m] by {
            assert(s.subrange(i + eb.len(), i + eb.len() + erest.len())[m] == s[i + eb.len() + m]);
            assert(esc[eb.len() + m] == erest[m]);
        }
        assert(s.subrange(i + eb.len(), i + eb.len() + erest.len()) =~= erest);
        lemma_parse_body_of_escape(s, i + eb.len(), rest);
        let j = i + esc.len() + 1;
        if b == 0x22 {
            assert(s[i] == 0x5c && s[i + 1] == 0x22);
            assert(spec_parse_jstr_body(s, i) == Some((seq![s[i + 1]] + rest, j)));
            assert(seq![s[i + 1]] + rest =~= content);
        } else if b == 0x5c {
            assert(s[i] == 0x5c && s[i + 1] == 0x5c);
            assert(spec_parse_jstr_body(s, i) == Some((seq![s[i + 1]] + rest, j)));
            assert(seq![s[i + 1]] + rest =~= content);
        } else if b < 0x20 {
            assert(s[i] == 0x5c && s[i + 1] == 0x75 && s[i + 2] == 0x30 && s[i + 3] == 0x30);
            assert(s[i + 4] == hex_byte((b / 16) as nat));
            assert(s[i + 5] == hex_byte((b % 16) as nat));
            assert(is_hex_digit(s[i + 4]) && hex_val(s[i + 4]) == b / 16);
            assert(is_hex_digit(s[i + 5]) && hex_val(s[i + 5]) == b % 16);
            assert((hex_val(s[i + 4]) * 16 + hex_val(s[i + 5])) as u8 == b) by {
                vstd::arithmetic::div_mod::lemma_fundamental_div_mod(b as int, 16);
            }
            assert(spec_parse_jstr_body(s, i) == Some((seq![b] + rest, j)));
            assert(seq![b] + rest =~= content);
        } else {
            assert(s[i] == b) by {
                assert(s[i + 0] == eb[0]);
            }
            assert(s[i] != 0x22 && s[i] != 0x5c && s[i] >= 0x20);
            assert(spec_parse_jstr_body(s, i) == Some((seq![s[i]] + rest, j)));
            assert(seq![s[i]] + rest =~= content);
        }
    }
}

/// The full-literal form of the round trip: a quoted escape parses back
/// to the content.
pub proof fn lemma_parse_jstr_of_quoted(s: Seq<u8>, i: int, content: Seq<u8>)
    requires
        0 <= i,
        i + spec_quoted(content).len() <= s.len(),
        s.subrange(i, i + spec_quoted(content).len()) == spec_quoted(content),
    ensures
        spec_parse_jstr(s, i) == Some((content, i + spec_quoted(content).len())),
{
    let q = spec_quoted(content);
    let esc = spec_escape(content);
    assert forall|m: int| 0 <= m < q.len() implies s[i + m] == q[m] by {
        assert(s.subrange(i, i + q.len())[m] == s[i + m]);
    }
    assert(s[i] == 0x22) by {
        assert(q[0] == 0x22);
    }
    assert forall|m: int|
        0 <= m < esc.len() implies s.subrange(i + 1, i + 1 + esc.len())[m] == esc[m] by {
        assert(s.subrange(i + 1, i + 1 + esc.len())[m] == s[i + 1 + m]);
        assert(q[1 + m] == esc[m]);
    }
    assert(s.subrange(i + 1, i + 1 + esc.len()) =~= esc);
    assert(s[i + 1 + esc.len()] == 0x22) by {
        assert(q[1 + esc.len() as int] == 0x22);
    }
    lemma_parse_body_of_escape(s, i + 1, content);
}

} // verus!

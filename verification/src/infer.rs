//! Turning typed text into a tree node: the type-inference precedence used
//! by the add-field affordance (boolean, then integer, then float, then
//! string), and TOML-style unescaping of string input.

use vstd::prelude::*;

use crate::lex::char_from_u32;
use crate::lex::copy_range;
use crate::lex::hex_digit_of;
use crate::lex::i64_lit;
use crate::lex::is_float_lit;
use crate::lex::is_float_literal;
use crate::lex::is_hex_digit;
use crate::lex::lower_seq;
use crate::lex::parse_i64;
use crate::lex::str_chars;
use crate::lex::string_from_chars;
use crate::lex::to_lower_char;
use crate::value::Node;
use crate::value::TreeValue;

verus! {

/// The text reads `true`, ASCII-case-insensitively.
pub open spec fn is_true_lit(s: Seq<char>) -> bool {
    let l = lower_seq(s);
    l.len() == 4 && l[0] == 't' && l[1] == 'r' && l[2] == 'u' && l[3] == 'e'
}

/// The text reads `false`, ASCII-case-insensitively.
pub open spec fn is_false_lit(s: Seq<char>) -> bool {
    let l = lower_seq(s);
    l.len() == 5 && l[0] == 'f' && l[1] == 'a' && l[2] == 'l' && l[3] == 's' && l[4] == 'e'
}

/// The text with one pair of surrounding double quotes removed, when both
/// are present.
pub open spec fn strip_quotes(s: Seq<char>) -> Seq<char> {
    if s.len() >= 2 && s[0] == '"' && s.last() == '"' {
        s.subrange(1, s.len() - 1)
    } else {
        s
    }
}

/// The node inferred from typed text, by the fixed precedence: boolean
/// literal, then decimal integer, then floating-point literal (kept as its
/// text), and otherwise a string with surrounding quotes stripped.
pub open spec fn inferred_node(s: Seq<char>) -> Node {
    if is_true_lit(s) {
        Node::Bool(true)
    } else if is_false_lit(s) {
        Node::Bool(false)
    } else if i64_lit(s) is Some {
        Node::Int(i64_lit(s)->0)
    } else if is_float_lit(s) {
        Node::Float(s)
    } else {
        Node::Str(strip_quotes(s))
    }
}

fn is_true_literal(chars: &Vec<char>) -> (r: bool)
    ensures
        r == is_true_lit(chars@),
{
    let r = chars.len() == 4 && to_lower_char(chars[0]) == 't' && to_lower_char(chars[1]) == 'r'
        && to_lower_char(chars[2]) == 'u' && to_lower_char(chars[3]) == 'e';
    r
}

fn is_false_literal(chars: &Vec<char>) -> (r: bool)
    ensures
        r == is_false_lit(chars@),
{
    let r = chars.len() == 5 && to_lower_char(chars[0]) == 'f' && to_lower_char(chars[1]) == 'a'
        && to_lower_char(chars[2]) == 'l' && to_lower_char(chars[3]) == 's'
        && to_lower_char(chars[4]) == 'e';
    r
}

/// Infers a typed node from text: `true`/`false` (case-insensitively) give a
/// boolean, then a decimal integer literal gives an integer, then a
/// floating-point literal gives a float carried as its text, and any other
/// text gives a string with one pair of surrounding quotes stripped.
pub fn value_from_string(input: &str) -> (r: Option<TreeValue>)
    ensures
        match r {
            Some(v) => v@ == inferred_node(input@),
            None => false,
        },
{
    let chars = str_chars(input);
    if is_true_literal(&chars) {
        return Some(TreeValue::Bool(true));
    }
    if is_false_literal(&chars) {
        return Some(TreeValue::Bool(false));
    }
    match parse_i64(&chars) {
        Some(v) => {
            return Some(TreeValue::Int(v));
        }
        None => {}
    }
    if is_float_literal(&chars) {
        return Some(TreeValue::Float(<String as vstd::string::StringExecFns>::from_str(input)));
    }
    let n = chars.len();
    if n >= 2 && chars[0] == '"' && chars[n - 1] == '"' {
        let mut inner: Vec<char> = Vec::new();
        let mut i: usize = 1;
        while i < n - 1
            invariant
                1 <= i <= n - 1,
                n == chars@.len(),
                inner@ == chars@.subrange(1, i as int),
            decreases n - 1 - i,
        {
            inner.push(chars[i]);
            proof {
                assert(chars@.subrange(1, i + 1 as int)
                    =~= chars@.subrange(1, i as int).push(chars@[i as int]));
            }
            i = i + 1;
        }
        proof {
            assert(chars@.last() == chars@[n - 1]);
            assert(inner@ == strip_quotes(input@));
        }
        Some(TreeValue::Str(string_from_chars(&inner)))
    } else {
        proof {
            if chars@.len() >= 2 {
                assert(chars@.last() == chars@[n - 1]);
            }
            assert(strip_quotes(input@) == input@);
        }
        Some(TreeValue::Str(<String as vstd::string::StringExecFns>::from_str(input)))
    }
}

/// Every character is a hexadecimal digit.
pub open spec fn all_hex(s: Seq<char>) -> bool {
    forall|i: int| 0 <= i < s.len() ==> is_hex_digit(#[trigger] s[i])
}

/// The value of a hexadecimal digit string.
pub open spec fn hex_val(s: Seq<char>) -> int
    decreases s.len(),
{
    if s.len() == 0 {
        0
    } else {
        hex_val(s.drop_last()) * 16 + hex_digit_of(s.last())
    }
}

proof fn lemma_hex_val_bound(s: Seq<char>)
    requires
        all_hex(s),
        s.len() <= 4,
    ensures
        0 <= hex_val(s),
        hex_val(s) < 0x10000,
        s.len() <= 3 ==> hex_val(s) < 0x1000,
        s.len() <= 2 ==> hex_val(s) < 0x100,
        s.len() <= 1 ==> hex_val(s) < 0x10,
    decreases s.len(),
{
    if s.len() > 0 {
        assert(all_hex(s.drop_last()));
        lemma_hex_val_bound(s.drop_last());
        assert(0 <= hex_digit_of(s.last()) < 16);
    }
}

/// The result of undoing TOML-style escapes: `\n`, `\t`, `\r`, `\\`,
/// `\"`, and `\u` followed by up to four hexadecimal digits. A `\u` whose
/// digits are malformed or name a surrogate contributes nothing; any other
/// escaped character keeps its backslash.
pub open spec fn unescape_model(s: Seq<char>) -> Seq<char>
    decreases s.len(),
{
    if s.len() == 0 {
        Seq::empty()
    } else if s[0] != '\\' {
        seq![s[0]] + unescape_model(s.skip(1))
    } else if s.len() == 1 {
        seq!['\\']
    } else {
        let c = s[1];
        if c == 'n' {
            seq!['\n'] + unescape_model(s.skip(2))
        } else if c == 't' {
            seq!['\t'] + unescape_model(s.skip(2))
        } else if c == 'r' {
            seq!['\r'] + unescape_model(s.skip(2))
        } else if c == '\\' {
            seq!['\\'] + unescape_model(s.skip(2))
        } else if c == '"' {
            seq!['"'] + unescape_model(s.skip(2))
        } else if c == 'u' {
            let k = if s.len() - 2 < 4 {
                s.len() - 2
            } else {
                4
            };
            let hex = s.subrange(2, 2 + k);
            let rest = unescape_model(s.skip(2 + k));
            if k > 0 && all_hex(hex) {
                let code = hex_val(hex);
                if code < 0xD800 || code >= 0xE000 {
                    seq![code as char] + rest
                } else {
                    rest
                }
            } else {
                rest
            }
        } else {
            seq!['\\', c] + unescape_model(s.skip(2))
        }
    }
}

fn all_hex_vec(v: &Vec<char>) -> (r: bool)
    ensures
        r == all_hex(v@),
{
    let n = v.len();
    let mut i: usize = 0;
    while i < n
        invariant
            i <= n,
            n == v@.len(),
            forall|j: int| 0 <= j < i ==> is_hex_digit(#[trigger] v@[j]),
        decreases n - i,
    {
        let c = v[i];
        if !(('0' <= c && c <= '9') || ('a' <= c && c <= 'f') || ('A' <= c && c <= 'F')) {
            assert(!is_hex_digit(v@[i as int]));
            return false;
        }
        i = i + 1;
    }
    true
}

fn hex_value(v: &Vec<char>) -> (r: u32)
    requires
        all_hex(v@),
        v@.len() <= 4,
    ensures
        r as int == hex_val(v@),
        r < 0x10000,
{
    let n = v.len();
    let mut code: u32 = 0;
    let mut j: usize = 0;
    while j < n
        invariant
            j <= n,
            n == v@.len() <= 4,
            all_hex(v@),
            code as int == hex_val(v@.take(j as int)),
        decreases n - j,
    {
        let c = v[j];
        proof {
            assert(is_hex_digit(v@[j as int]));
            assert(all_hex(v@.take(j as int))) by {
                assert(forall|m: int|
                    0 <= m < j ==> #[trigger] v@.take(j as int)[m] == v@[m]);
            }
            lemma_hex_val_bound(v@.take(j as int));
            assert(v@.take(j + 1).drop_last() =~= v@.take(j as int));
        }
        let d: u32 = if '0' <= c && c <= '9' {
            c as u32 - 48
        } else if 'a' <= c && c <= 'f' {
            c as u32 - 97 + 10
        } else {
            c as u32 - 65 + 10
        };
        code = code * 16 + d;
        j = j + 1;
    }
    proof {
        assert(v@.take(n as int) =~= v@);
        lemma_hex_val_bound(v@);
    }
    code
}

/// Undoes TOML-style escape sequences: `\n`, `\t`, `\r`, `\\`, `\"`, and
/// `\uXXXX` with up to four hexadecimal digits; malformed or surrogate
/// `\u` codes are dropped, and any other escaped character keeps its
/// backslash.
pub fn unescape_string(s: &str) -> (r: String)
    ensures
        r@ == unescape_model(s@),
{
    let chars = str_chars(s);
    let n = chars.len();
    let mut out: Vec<char> = Vec::new();
    let mut i: usize = 0;
    proof {
        assert(s@.skip(0) =~= s@);
        assert(Seq::<char>::empty() + unescape_model(s@) =~= unescape_model(s@));
    }
    while i < n
        invariant
            i <= n,
            n == chars@.len(),
            chars@ == s@,
            out@ + unescape_model(s@.skip(i as int)) == unescape_model(s@),
        decreases n - i,
    {
        let ghost suf = s@.skip(i as int);
        let ghost out0 = out@;
        proof {
            assert(suf.len() == n - i);
            assert(suf[0] == s@[i as int]);
        }
        let c = chars[i];
        if !(c == '\\') {
            proof {
                assert(suf.skip(1) =~= s@.skip(i + 1));
                assert(unescape_model(suf) == seq![c] + unescape_model(s@.skip(i + 1)));
                assert(out0.push(c) + unescape_model(s@.skip(i + 1))
                    =~= out0 + unescape_model(suf));
            }
            out.push(c);
            i = i + 1;
        } else if i + 1 == n {
            proof {
                assert(unescape_model(suf) == seq!['\\']);
                assert(out0.push('\\') + unescape_model(s@.skip(n as int))
                    =~= out0 + unescape_model(suf));
            }
            out.push('\\');
            i = n;
        } else {
            let c2 = chars[i + 1];
            proof {
                assert(suf[1] == s@[i + 1]);
            }
            let simple: Option<char> = match c2 {
                'n' => Some('\n'),
                't' => Some('\t'),
                'r' => Some('\r'),
                '\\' => Some('\\'),
                '"' => Some('"'),
                _ => None,
            };
            match simple {
                Some(e) => {
                    proof {
                        assert(suf.skip(2) =~= s@.skip(i + 2));
                        assert(unescape_model(suf) == seq![e] + unescape_model(s@.skip(i + 2)));
                        assert(out0.push(e) + unescape_model(s@.skip(i + 2))
                            =~= out0 + unescape_model(suf));
                    }
                    out.push(e);
                    i = i + 2;
                }
                None => {
                    if c2 == 'u' {
                        let rem = n - (i + 2);
                        let k: usize = if rem < 4 {
                            rem
                        } else {
                            4
                        };
                        let hexv = copy_range(&chars, i + 2, i + 2 + k);
                        proof {
                            assert(hexv@ =~= suf.subrange(2, 2 + k));
                            assert(suf.skip(2 + k) =~= s@.skip(i + 2 + k));
                        }
                        if k > 0 && all_hex_vec(&hexv) {
                            let code = hex_value(&hexv);
                            match char_from_u32(code) {
                                Some(ch) => {
                                    proof {
                                        vstd::utf8::char_u32_cast(ch, code);
                                        assert(unescape_model(suf)
                                            == seq![ch] + unescape_model(s@.skip(i + 2 + k)));
                                        assert(out0.push(ch) + unescape_model(s@.skip(i + 2 + k))
                                            =~= out0 + unescape_model(suf));
                                    }
                                    out.push(ch);
                                }
                                None => {
                                    proof {
                                        lemma_hex_val_bound(hexv@);
                                        assert(unescape_model(suf)
                                            == unescape_model(s@.skip(i + 2 + k)));
                                    }
                                }
                            }
                        } else {
                            proof {
                                assert(unescape_model(suf)
                                    == unescape_model(s@.skip(i + 2 + k)));
                            }
                        }
                        i = i + 2 + k;
                    } else {
                        proof {
                            assert(suf.skip(2) =~= s@.skip(i + 2));
                            assert(unescape_model(suf)
                                == seq!['\\', c2] + unescape_model(s@.skip(i + 2)));
                            assert(out0.push('\\').push(c2) + unescape_model(s@.skip(i + 2))
                                =~= out0 + unescape_model(suf));
                        }
                        out.push('\\');
                        out.push(c2);
                        i = i + 2;
                    }
                }
            }
        }
    }
    proof {
        assert(s@.skip(n as int) =~= Seq::<char>::empty());
    }
    string_from_chars(&out)
}

} // verus!

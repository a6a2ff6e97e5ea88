//! Session persistence of the committed input: one serialized record
//! `{"program_input":"...","language":"..."}` written on every commit and
//! read back on page load. Reading tolerates everything: a missing record
//! or one that does not parse falls back to the deployment default, and a
//! record written by `persist_record` always reads back unchanged.

use vstd::prelude::*;
use crate::input::{LanguageVariant, ProgramInput, default_text};
use crate::strutil::{chars_to_string, string_to_chars};
use vstd::string::StrSliceExecFns;

verus! {

/// How one character is stored inside the record's text field: quotes and
/// backslashes carry an escaping backslash, everything else is verbatim.
pub open spec fn esc_char(c: char) -> Seq<char> {
    if c == '"' || c == '\\' {
        seq!['\\', c]
    } else {
        seq![c]
    }
}

/// The escaped form of a whole text.
pub open spec fn escape_seq(s: Seq<char>) -> Seq<char>
    decreases s.len(),
{
    if s.len() == 0 {
        Seq::empty()
    } else {
        esc_char(s[0]) + escape_seq(s.drop_first())
    }
}

/// Escaping one more character appends its escaped form.
proof fn lemma_escape_snoc(s: Seq<char>, c: char)
    ensures
        escape_seq(s.push(c)) == escape_seq(s) + esc_char(c),
    decreases s.len(),
{
    reveal_with_fuel(escape_seq, 3);
    if s.len() == 0 {
        assert(s.push(c).drop_first() =~= Seq::<char>::empty());
        assert(escape_seq(s.push(c)) =~= escape_seq(s) + esc_char(c));
    } else {
        assert(s.push(c).drop_first() =~= s.drop_first().push(c));
        lemma_escape_snoc(s.drop_first(), c);
        assert(escape_seq(s.push(c)) =~= escape_seq(s) + esc_char(c));
    }
}

/// The record's opening, up to and including the quote that starts the
/// text field.
pub open spec fn rec_prefix() -> Seq<char> {
    "{\"program_input\":\""@
}

/// The record between the text field's closing quote and the language
/// value's opening quote.
pub open spec fn rec_mid() -> Seq<char> {
    ",\"language\":\""@
}

/// The record's ending: the language value and the closing braces.
pub open spec fn rec_tail(lang: LanguageVariant) -> Seq<char> {
    match lang {
        LanguageVariant::Primary => "primary\"}"@,
        LanguageVariant::Alternate => "alternate\"}"@,
    }
}

/// The serialized record for one committed input.
pub open spec fn record_seq(text: Seq<char>, lang: LanguageVariant) -> Seq<char> {
    rec_prefix() + escape_seq(text) + seq!['"'] + rec_mid() + rec_tail(lang)
}

/// Reads an escaped text field up to its closing quote: the text read so
/// far is `acc`; the result is the full text and what follows the closing
/// quote, or nothing if the field never closes or escapes something it
/// cannot.
pub open spec fn parse_escaped(s: Seq<char>, acc: Seq<char>) -> Option<(Seq<char>, Seq<char>)>
    decreases s.len(),
{
    if s.len() == 0 {
        None
    } else if s[0] == '"' {
        Some((acc, s.drop_first()))
    } else if s[0] == '\\' {
        if s.len() >= 2 && (s[1] == '"' || s[1] == '\\') {
            parse_escaped(s.skip(2), acc.push(s[1]))
        } else {
            None
        }
    } else {
        parse_escaped(s.drop_first(), acc.push(s[0]))
    }
}

/// Reads a whole record: the committed text and language variant, or
/// nothing if the record is malformed in any way.
pub open spec fn parse_record(s: Seq<char>) -> Option<(Seq<char>, LanguageVariant)> {
    if s.len() < rec_prefix().len() || s.take(rec_prefix().len() as int) != rec_prefix() {
        None
    } else {
        match parse_escaped(s.skip(rec_prefix().len() as int), Seq::empty()) {
            Option::None => None,
            Option::Some(p) => {
                let rest = p.1;
                if rest.len() < rec_mid().len() || rest.take(rec_mid().len() as int) != rec_mid() {
                    None
                } else {
                    let tail = rest.skip(rec_mid().len() as int);
                    if tail == rec_tail(LanguageVariant::Primary) {
                        Some((p.0, LanguageVariant::Primary))
                    } else if tail == rec_tail(LanguageVariant::Alternate) {
                        Some((p.0, LanguageVariant::Alternate))
                    } else {
                        None
                    }
                }
            },
        }
    }
}

/// Reading an escaped text followed by its closing quote yields the text
/// and leaves exactly what follows the quote.
proof fn lemma_parse_escape(t: Seq<char>, rest: Seq<char>, acc: Seq<char>)
    ensures
        parse_escaped(escape_seq(t) + seq!['"'] + rest, acc) == Some::<(Seq<char>, Seq<char>)>(
            (acc + t, rest),
        ),
    decreases t.len(),
{
    let s = escape_seq(t) + seq!['"'] + rest;
    if t.len() == 0 {
        assert(s[0] == '"');
        assert(s.drop_first() =~= rest);
        assert(acc + t =~= acc);
    } else {
        let c = t[0];
        assert(escape_seq(t) == esc_char(c) + escape_seq(t.drop_first()));
        lemma_parse_escape(t.drop_first(), rest, acc.push(c));
        assert(acc.push(c) + t.drop_first() =~= acc + t);
        if c == '"' || c == '\\' {
            assert(s[0] == '\\' && s[1] == c);
            assert(s.skip(2) =~= escape_seq(t.drop_first()) + seq!['"'] + rest);
        } else {
            assert(s[0] == c);
            assert(s.drop_first() =~= escape_seq(t.drop_first()) + seq!['"'] + rest);
        }
    }
}

/// Law: persistence round-trips. A record written for any committed text
/// and language reads back as exactly that text and language.
pub proof fn lemma_record_round_trip(text: Seq<char>, lang: LanguageVariant)
    ensures
        parse_record(record_seq(text, lang)) == Some::<(Seq<char>, LanguageVariant)>(
            (text, lang),
        ),
{
    let s = record_seq(text, lang);
    let pl = rec_prefix().len() as int;
    assert(s.len() >= rec_prefix().len());
    assert(s.take(pl) =~= rec_prefix());
    assert(s.skip(pl) =~= escape_seq(text) + seq!['"'] + (rec_mid() + rec_tail(lang)));
    lemma_parse_escape(text, rec_mid() + rec_tail(lang), Seq::empty());
    assert(Seq::<char>::empty() + text =~= text);
    let rest = rec_mid() + rec_tail(lang);
    assert(rest.take(rec_mid().len() as int) =~= rec_mid());
    assert(rest.skip(rec_mid().len() as int) =~= rec_tail(lang));
    reveal_strlit("primary\"}");
    reveal_strlit("alternate\"}");
    assert(rec_tail(LanguageVariant::Primary).len() != rec_tail(LanguageVariant::Alternate).len());
}

/// Appends the characters of a string slice.
fn push_lit(out: &mut Vec<char>, lit: &str)
    ensures
        final(out)@ == old(out)@ + lit@,
{
    let n = lit.unicode_len();
    let mut j: usize = 0;
    while j < n
        invariant
            0 <= j <= n,
            n == lit@.len(),
            out@ == old(out)@ + lit@.take(j as int),
        decreases n - j,
    {
        out.push(lit.get_char(j));
        proof {
            assert(out@ =~= old(out)@ + lit@.take(j + 1 as int));
        }
        j = j + 1;
    }
    proof {
        assert(old(out)@ + lit@.take(n as int) =~= old(out)@ + lit@);
    }
}

/// Serializes one committed input as the persisted record. Written on
/// every commit with overwrite semantics: the last writer wins.
pub fn persist_record(input: &ProgramInput) -> (s: String)
    ensures
        s@ == record_seq(input.text@, input.language),
{
    let mut out: Vec<char> = Vec::new();
    push_lit(&mut out, "{\"program_input\":\"");
    let chars = string_to_chars(input.text.as_str());
    let n = chars.len();
    let mut i: usize = 0;
    while i < n
        invariant
            0 <= i <= n,
            n == chars@.len(),
            chars@ == input.text@,
            out@ == rec_prefix() + escape_seq(input.text@.take(i as int)),
        decreases n - i,
    {
        let c = chars[i];
        if c == '"' || c == '\\' {
            out.push('\\');
            out.push(c);
        } else {
            out.push(c);
        }
        proof {
            lemma_escape_snoc(input.text@.take(i as int), input.text@[i as int]);
            assert(input.text@.take(i + 1 as int) =~= input.text@.take(i as int).push(
                input.text@[i as int],
            ));
            assert(out@ =~= rec_prefix() + escape_seq(input.text@.take(i + 1 as int)));
        }
        i = i + 1;
    }
    proof {
        assert(input.text@.take(n as int) =~= input.text@);
    }
    out.push('"');
    push_lit(&mut out, ",\"language\":\"");
    match input.language {
        LanguageVariant::Primary => push_lit(&mut out, "primary\"}"),
        LanguageVariant::Alternate => push_lit(&mut out, "alternate\"}"),
    }
    proof {
        assert(out@ =~= record_seq(input.text@, input.language));
    }
    chars_to_string(&out)
}

/// Whether the characters of `lit` stand at position `at`.
fn match_lit(v: &Vec<char>, at: usize, lit: &str) -> (r: bool)
    requires
        at <= v@.len(),
    ensures
        r <==> (at + lit@.len() <= v@.len() && v@.subrange(at as int, at as int + lit@.len() as int)
            == lit@),
{
    let n = lit.unicode_len();
    if v.len() - at < n {
        return false;
    }
    let mut j: usize = 0;
    while j < n
        invariant
            0 <= j <= n,
            n == lit@.len(),
            at + n <= v@.len(),
            v@.len() <= usize::MAX,
            forall|t: int| 0 <= t < j ==> v@[at + t] == lit@[t],
        decreases n - j,
    {
        if v[at + j] != lit.get_char(j) {
            proof {
                assert(v@.subrange(at as int, at as int + lit@.len() as int)[j as int] != lit@[
                    j as int
                ]);
            }
            return false;
        }
        j = j + 1;
    }
    proof {
        assert(v@.subrange(at as int, at as int + lit@.len() as int) =~= lit@);
    }
    true
}

/// Reads the escaped text field of the record starting at `start`,
/// mirroring `parse_escaped`: the text and the position after the closing
/// quote, or nothing.
fn parse_escaped_exec(v: &Vec<char>, start: usize) -> (r: Option<(Vec<char>, usize)>)
    requires
        start <= v@.len(),
    ensures
        match r {
            Some(p) => p.1 <= v@.len() && parse_escaped(v@.skip(start as int), Seq::empty())
                == Some::<(Seq<char>, Seq<char>)>((p.0@, v@.skip(p.1 as int))),
            None => parse_escaped(v@.skip(start as int), Seq::empty()) is None,
        },
{
    let mut acc: Vec<char> = Vec::new();
    let mut i: usize = start;
    while i < v.len()
        invariant
            start <= i <= v@.len(),
            parse_escaped(v@.skip(start as int), Seq::empty()) == parse_escaped(
                v@.skip(i as int),
                acc@,
            ),
        decreases v@.len() - i,
    {
        let c = v[i];
        proof {
            assert(v@.skip(i as int)[0] == v@[i as int]);
        }
        if c == '"' {
            proof {
                assert(v@.skip(i as int).drop_first() =~= v@.skip(i + 1 as int));
            }
            return Some((acc, i + 1));
        } else if c == '\\' {
            if v.len() - i >= 2 {
                let d = v[i + 1];
                proof {
                    assert(v@.skip(i as int)[1] == v@[i + 1 as int]);
                }
                if d == '"' || d == '\\' {
                    proof {
                        assert(v@.skip(i as int).skip(2) =~= v@.skip(i + 2 as int));
                    }
                    acc.push(d);
                    i = i + 2;
                } else {
                    return None;
                }
            } else {
                proof {
                    assert(v@.skip(i as int).len() == 1);
                }
                return None;
            }
        } else {
            proof {
                assert(v@.skip(i as int).drop_first() =~= v@.skip(i + 1 as int));
            }
            acc.push(c);
            i = i + 1;
        }
    }
    proof {
        assert(v@.skip(i as int).len() == 0);
    }
    None
}

/// Reads a whole record, mirroring `parse_record`.
fn parse_record_exec(v: &Vec<char>) -> (r: Option<(Vec<char>, LanguageVariant)>)
    ensures
        match r {
            Some(p) => parse_record(v@) == Some::<(Seq<char>, LanguageVariant)>((p.0@, p.1)),
            None => parse_record(v@) is None,
        },
{
    let prefix = "{\"program_input\":\"";
    let pl = prefix.unicode_len();
    if !match_lit(v, 0, prefix) {
        proof {
            assert(v@.len() >= rec_prefix().len() ==> v@.subrange(0, rec_prefix().len() as int)
                =~= v@.take(rec_prefix().len() as int));
        }
        return None;
    }
    proof {
        assert(v@.subrange(0, rec_prefix().len() as int) =~= v@.take(rec_prefix().len() as int));
    }
    match parse_escaped_exec(v, pl) {
        None => None,
        Some((text, after)) => {
            let mid = ",\"language\":\"";
            let ml = mid.unicode_len();
            if !match_lit(v, after, mid) {
                proof {
                    let rest = v@.skip(after as int);
                    assert(after + rec_mid().len() <= v@.len() ==> v@.subrange(
                        after as int,
                        after as int + rec_mid().len() as int,
                    ) =~= rest.take(rec_mid().len() as int));
                    assert(rest.len() == v@.len() - after);
                }
                return None;
            }
            proof {
                let rest = v@.skip(after as int);
                assert(v@.subrange(after as int, after as int + rec_mid().len() as int)
                    =~= rest.take(rec_mid().len() as int));
            }
            let vl = v.len();
            let at_tail = after + ml;
            let tail_p = "primary\"}";
            let tail_a = "alternate\"}";
            proof {
                let rest = v@.skip(after as int);
                assert(rest.skip(rec_mid().len() as int) =~= v@.skip(at_tail as int));
            }
            if match_lit(v, at_tail, tail_p) && v.len() - at_tail == tail_p.unicode_len() {
                proof {
                    assert(v@.subrange(at_tail as int, at_tail as int + rec_tail(
                        LanguageVariant::Primary,
                    ).len() as int) =~= v@.skip(at_tail as int));
                }
                Some((text, LanguageVariant::Primary))
            } else if match_lit(v, at_tail, tail_a) && v.len() - at_tail
                == tail_a.unicode_len() {
                proof {
                    assert(v@.subrange(at_tail as int, at_tail as int + rec_tail(
                        LanguageVariant::Alternate,
                    ).len() as int) =~= v@.skip(at_tail as int));
                    reveal_strlit("primary\"}");
                    reveal_strlit("alternate\"}");
                }
                Some((text, LanguageVariant::Alternate))
            } else {
                proof {
                    let tail = v@.skip(at_tail as int);
                    if tail == rec_tail(LanguageVariant::Primary) {
                        assert(v@.subrange(at_tail as int, at_tail as int + rec_tail(
                            LanguageVariant::Primary,
                        ).len() as int) =~= tail);
                    }
                    if tail == rec_tail(LanguageVariant::Alternate) {
                        assert(v@.subrange(at_tail as int, at_tail as int + rec_tail(
                            LanguageVariant::Alternate,
                        ).len() as int) =~= tail);
                    }
                }
                None
            }
        },
    }
}

/// Loads the committed input back from the persisted record. A missing or
/// malformed record never fails observably: it yields the deployment
/// default instead.
pub fn load_record(stored: Option<&String>) -> (r: ProgramInput)
    ensures
        match stored {
            None => r.text@ == default_text(LanguageVariant::Alternate) && r.language
                == LanguageVariant::Alternate,
            Some(s) => match parse_record(s@) {
                Some(p) => r.text@ == p.0 && r.language == p.1,
                None => r.text@ == default_text(LanguageVariant::Alternate) && r.language
                    == LanguageVariant::Alternate,
            },
        },
{
    match stored {
        None => ProgramInput::default_for(LanguageVariant::Alternate),
        Some(s) => {
            let chars = string_to_chars(s.as_str());
            match parse_record_exec(&chars) {
                Some((text, lang)) => ProgramInput {
                    text: chars_to_string(&text),
                    language: lang,
                },
                None => ProgramInput::default_for(LanguageVariant::Alternate),
            }
        },
    }
}

} // verus!

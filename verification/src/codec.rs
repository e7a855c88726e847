//! The durable conversation document: a JSON-shaped text mapping each
//! conversation id (as a decimal string key) to its ordered array of
//! message objects `{role, content, timestamp, sources?}`. The encoder and
//! the decoder both live here, and reloading a document written by the
//! encoder provably reproduces the registry exactly. The decoder tolerates
//! a missing `timestamp` (defaulting it to zero) and a missing `sources`
//! list, as older documents omitted them.
//!
//! Rewriting the whole document on every mutation, and the atomic
//! write-new-then-replace discipline, are the surrounding application's
//! business; this module owns the text itself.

use vstd::prelude::*;
use vstd::string::*;
use crate::message::{msg_views, role_text, source_views, ChatMessage, MessageView, Role,
    SourceView, WebSource};
use crate::mode::MiaMode;
use crate::session::{conv_views, ConvView, Conversation};
use crate::text::{chars_of, hex_char, hex_char_of, string_from_chars};

verus! {

/// The decimal digits of a number, most significant first.
pub open spec fn dec_digits(n: nat) -> Seq<char>
    decreases n,
{
    if n < 10 {
        seq![hex_char(n as u8)]
    } else {
        dec_digits(n / 10).push(hex_char((n % 10) as u8))
    }
}

/// The escaped form of one character inside a quoted string: quote,
/// backslash and the common control characters get two-character escapes,
/// other control characters a hexadecimal escape, everything else stands
/// as it is.
pub open spec fn esc_char(c: char) -> Seq<char> {
    if c == '"' {
        seq!['\\', '"']
    } else if c == '\\' {
        seq!['\\', '\\']
    } else if c == '\n' {
        seq!['\\', 'n']
    } else if c == '\r' {
        seq!['\\', 'r']
    } else if c == '\t' {
        seq!['\\', 't']
    } else if (c as u32) < 32 {
        seq!['\\', 'u', '0', '0', hex_char(((c as u32) / 16) as u8), hex_char(
            ((c as u32) % 16) as u8,
        )]
    } else {
        seq![c]
    }
}

/// The escaped body of a quoted string.
pub open spec fn enc_str_body(s: Seq<char>) -> Seq<char>
    decreases s.len(),
{
    if s.len() == 0 {
        Seq::empty()
    } else {
        esc_char(s[0]) + enc_str_body(s.drop_first())
    }
}

/// A quoted, escaped string.
pub open spec fn enc_string(s: Seq<char>) -> Seq<char> {
    seq!['"'] + enc_str_body(s) + seq!['"']
}

/// One encoded source object.
pub open spec fn enc_source(s: SourceView) -> Seq<char> {
    "{\"title\":"@ + enc_string(s.title) + ",\"url\":"@ + enc_string(s.url) + "}"@
}

/// Comma-joined encoded sources.
pub open spec fn enc_sources_items(ss: Seq<SourceView>) -> Seq<char>
    decreases ss.len(),
{
    if ss.len() == 0 {
        Seq::empty()
    } else if ss.len() == 1 {
        enc_source(ss[0])
    } else {
        enc_source(ss[0]) + seq![','] + enc_sources_items(ss.drop_first())
    }
}

/// One encoded message object; the sources field appears only when the
/// message carries sources.
pub open spec fn enc_message(m: MessageView) -> Seq<char> {
    "{\"role\":"@ + enc_string(role_text(m.role)) + ",\"content\":"@ + enc_string(m.content)
        + ",\"timestamp\":"@ + dec_digits(m.timestamp as nat) + (match m.sources {
        Option::None => Seq::<char>::empty(),
        Option::Some(ss) => ",\"sources\":["@ + enc_sources_items(ss) + "]"@,
    }) + "}"@
}

/// Comma-joined encoded messages.
pub open spec fn enc_msgs_items(ms: Seq<MessageView>) -> Seq<char>
    decreases ms.len(),
{
    if ms.len() == 0 {
        Seq::empty()
    } else if ms.len() == 1 {
        enc_message(ms[0])
    } else {
        enc_message(ms[0]) + seq![','] + enc_msgs_items(ms.drop_first())
    }
}

/// One encoded conversation: its id as a decimal string key and its
/// message array.
pub open spec fn enc_conv(c: ConvView) -> Seq<char> {
    seq!['"'] + dec_digits(c.id as nat) + "\":["@ + enc_msgs_items(c.messages) + "]"@
}

/// Comma-joined encoded conversations.
pub open spec fn enc_convs_items(cs: Seq<ConvView>) -> Seq<char>
    decreases cs.len(),
{
    if cs.len() == 0 {
        Seq::empty()
    } else if cs.len() == 1 {
        enc_conv(cs[0])
    } else {
        enc_conv(cs[0]) + seq![','] + enc_convs_items(cs.drop_first())
    }
}

/// The whole durable document of a registry.
pub open spec fn enc_registry(cs: Seq<ConvView>) -> Seq<char> {
    seq!['{'] + enc_convs_items(cs) + seq!['}']
}

/// A decimal digit.
pub open spec fn is_digit(c: char) -> bool {
    48 <= (c as u32) <= 57
}

/// The value of a decimal digit.
pub open spec fn digit_val(c: char) -> nat {
    ((c as u32) - 48) as nat
}

/// An upper-case hexadecimal digit.
pub open spec fn is_hex_digit(c: char) -> bool {
    is_digit(c) || (65 <= (c as u32) <= 70)
}

/// The value of an upper-case hexadecimal digit.
pub open spec fn hex_val(c: char) -> nat {
    if is_digit(c) {
        digit_val(c)
    } else {
        ((c as u32) - 55) as nat
    }
}

/// Consumes leading digits, folding them onto an accumulator; stops at the
/// first non-digit.
pub open spec fn p_digits(s: Seq<char>, acc: nat) -> (nat, Seq<char>)
    decreases s.len(),
{
    if s.len() > 0 && is_digit(s[0]) {
        p_digits(s.drop_first(), acc * 10 + digit_val(s[0]))
    } else {
        (acc, s)
    }
}

/// Parses a number: at least one digit, maximal munch.
pub open spec fn p_number(s: Seq<char>) -> Option<(nat, Seq<char>)> {
    if s.len() > 0 && is_digit(s[0]) {
        Option::Some(p_digits(s, 0))
    } else {
        Option::None
    }
}

/// Parses the body of a quoted string up to (not including) the closing
/// quote, undoing the escapes the encoder writes; raw control characters
/// are refused.
pub open spec fn p_str_body(s: Seq<char>) -> Option<(Seq<char>, Seq<char>)>
    decreases s.len(), 0int,
{
    if s.len() == 0 {
        Option::None
    } else if s[0] == '"' {
        Option::Some((Seq::empty(), s))
    } else if s[0] == '\\' {
        if s.len() >= 2 {
            let c = s[1];
            if c == '"' || c == '\\' {
                p_str_cons(c, s.skip(2))
            } else if c == 'n' {
                p_str_cons('\n', s.skip(2))
            } else if c == 'r' {
                p_str_cons('\r', s.skip(2))
            } else if c == 't' {
                p_str_cons('\t', s.skip(2))
            } else if c == 'u' {
                if s.len() >= 6 && s[2] == '0' && s[3] == '0' && is_hex_digit(s[4]) && is_hex_digit(
                    s[5],
                ) {
                    let v = hex_val(s[4]) * 16 + hex_val(s[5]);
                    if v < 32 {
                        p_str_cons(((v as u32) as char), s.skip(6))
                    } else {
                        Option::None
                    }
                } else {
                    Option::None
                }
            } else {
                Option::None
            }
        } else {
            Option::None
        }
    } else if (s[0] as u32) >= 32 {
        p_str_cons(s[0], s.drop_first())
    } else {
        Option::None
    }
}

/// One decoded character followed by the rest of a string body.
pub open spec fn p_str_cons(c: char, rest: Seq<char>) -> Option<(Seq<char>, Seq<char>)>
    decreases rest.len(), 1int,
{
    match p_str_body(rest) {
        Option::Some((v, r)) => Option::Some((seq![c] + v, r)),
        Option::None => Option::None,
    }
}

/// Parses a quoted string.
pub open spec fn p_string(s: Seq<char>) -> Option<(Seq<char>, Seq<char>)> {
    if s.len() > 0 && s[0] == '"' {
        match p_str_body(s.drop_first()) {
            Option::Some((v, r)) => if r.len() > 0 && r[0] == '"' {
                Option::Some((v, r.drop_first()))
            } else {
                Option::None
            },
            Option::None => Option::None,
        }
    } else {
        Option::None
    }
}

/// Consumes an exact literal.
pub open spec fn expect(s: Seq<char>, lit: Seq<char>) -> Option<Seq<char>> {
    if lit.len() <= s.len() && s.take(lit.len() as int) == lit {
        Option::Some(s.skip(lit.len() as int))
    } else {
        Option::None
    }
}

/// Parses one source object.
pub open spec fn p_source(s: Seq<char>) -> Option<(SourceView, Seq<char>)> {
    match expect(s, "{\"title\":"@) {
        Option::Some(s1) => match p_string(s1) {
            Option::Some((title, s2)) => match expect(s2, ",\"url\":"@) {
                Option::Some(s3) => match p_string(s3) {
                    Option::Some((url, s4)) => match expect(s4, "}"@) {
                        Option::Some(s5) => Option::Some((SourceView { title, url }, s5)),
                        Option::None => Option::None,
                    },
                    Option::None => Option::None,
                },
                Option::None => Option::None,
            },
            Option::None => Option::None,
        },
        Option::None => Option::None,
    }
}

/// Parses the remaining comma-separated sources of a non-empty list, up to
/// and including the closing bracket.
pub open spec fn p_sources_rest(s: Seq<char>, acc: Seq<SourceView>) -> Option<(
    Seq<SourceView>,
    Seq<char>,
)>
    decreases s.len(),
{
    match p_source(s) {
        Option::Some((src, r)) => if r.len() < s.len() {
            if r.len() > 0 && r[0] == ',' {
                p_sources_rest(r.drop_first(), acc.push(src))
            } else if r.len() > 0 && r[0] == ']' {
                Option::Some((acc.push(src), r.drop_first()))
            } else {
                Option::None
            }
        } else {
            Option::None
        },
        Option::None => Option::None,
    }
}

/// Parses a source list after its opening bracket.
pub open spec fn p_sources_list(s: Seq<char>) -> Option<(Seq<SourceView>, Seq<char>)> {
    if s.len() > 0 && s[0] == ']' {
        Option::Some((Seq::empty(), s.drop_first()))
    } else {
        p_sources_rest(s, Seq::empty())
    }
}

/// The role a role tag denotes.
pub open spec fn role_of_text(t: Seq<char>) -> Option<Role> {
    if t == "system"@ {
        Option::Some(Role::System)
    } else if t == "user"@ {
        Option::Some(Role::User)
    } else if t == "assistant"@ {
        Option::Some(Role::Assistant)
    } else {
        Option::None
    }
}

/// Parses one message object. A missing `timestamp` defaults to zero and a
/// missing `sources` field to no sources.
pub open spec fn p_message(s: Seq<char>) -> Option<(MessageView, Seq<char>)> {
    match expect(s, "{\"role\":"@) {
        Option::Some(s1) => match p_string(s1) {
            Option::Some((roletxt, s2)) => match role_of_text(roletxt) {
                Option::Some(role) => match expect(s2, ",\"content\":"@) {
                    Option::Some(s3) => match p_string(s3) {
                        Option::Some((content, s4)) => {
                            let ts_step: Option<(u64, Seq<char>)> = match expect(
                                s4,
                                ",\"timestamp\":"@,
                            ) {
                                Option::Some(s4a) => match p_number(s4a) {
                                    Option::Some((n, s4b)) => if n <= u64::MAX {
                                        Option::Some((n as u64, s4b))
                                    } else {
                                        Option::None
                                    },
                                    Option::None => Option::None,
                                },
                                Option::None => Option::Some((0u64, s4)),
                            };
                            match ts_step {
                                Option::Some((ts, s5)) => {
                                    let src_step: Option<(Option<Seq<SourceView>>, Seq<char>)> =
                                        match expect(s5, ",\"sources\":["@) {
                                        Option::Some(s5a) => match p_sources_list(s5a) {
                                            Option::Some((ss, s5b)) => Option::Some(
                                                (Option::Some(ss), s5b),
                                            ),
                                            Option::None => Option::None,
                                        },
                                        Option::None => Option::Some((Option::None, s5)),
                                    };
                                    match src_step {
                                        Option::Some((srcs, s6)) => match expect(s6, "}"@) {
                                            Option::Some(s7) => Option::Some(
                                                (
                                                    MessageView {
                                                        role,
                                                        content,
                                                        timestamp: ts,
                                                        sources: srcs,
                                                    },
                                                    s7,
                                                ),
                                            ),
                                            Option::None => Option::None,
                                        },
                                        Option::None => Option::None,
                                    }
                                },
                                Option::None => Option::None,
                            }
                        },
                        Option::None => Option::None,
                    },
                    Option::None => Option::None,
                },
                Option::None => Option::None,
            },
            Option::None => Option::None,
        },
        Option::None => Option::None,
    }
}

/// Parses the remaining comma-separated messages of a non-empty list, up
/// to and including the closing bracket.
pub open spec fn p_msgs_rest(s: Seq<char>, acc: Seq<MessageView>) -> Option<(
    Seq<MessageView>,
    Seq<char>,
)>
    decreases s.len(),
{
    match p_message(s) {
        Option::Some((m, r)) => if r.len() < s.len() {
            if r.len() > 0 && r[0] == ',' {
                p_msgs_rest(r.drop_first(), acc.push(m))
            } else if r.len() > 0 && r[0] == ']' {
                Option::Some((acc.push(m), r.drop_first()))
            } else {
                Option::None
            }
        } else {
            Option::None
        },
        Option::None => Option::None,
    }
}

/// Parses a message list after its opening bracket.
pub open spec fn p_msgs_list(s: Seq<char>) -> Option<(Seq<MessageView>, Seq<char>)> {
    if s.len() > 0 && s[0] == ']' {
        Option::Some((Seq::empty(), s.drop_first()))
    } else {
        p_msgs_rest(s, Seq::empty())
    }
}

/// Parses one conversation: its decimal string key and its message array.
pub open spec fn p_conv(s: Seq<char>) -> Option<(ConvView, Seq<char>)> {
    if s.len() > 0 && s[0] == '"' {
        match p_number(s.drop_first()) {
            Option::Some((n, r)) => if n <= u128::MAX {
                match expect(r, "\":["@) {
                    Option::Some(r1) => match p_msgs_list(r1) {
                        Option::Some((ms, r2)) => Option::Some(
                            (ConvView { id: n as u128, messages: ms }, r2),
                        ),
                        Option::None => Option::None,
                    },
                    Option::None => Option::None,
                }
            } else {
                Option::None
            },
            Option::None => Option::None,
        }
    } else {
        Option::None
    }
}

/// Parses the remaining comma-separated conversations of a non-empty
/// document, up to and including the closing brace.
pub open spec fn p_convs_rest(s: Seq<char>, acc: Seq<ConvView>) -> Option<(
    Seq<ConvView>,
    Seq<char>,
)>
    decreases s.len(),
{
    match p_conv(s) {
        Option::Some((c, r)) => if r.len() < s.len() {
            if r.len() > 0 && r[0] == ',' {
                p_convs_rest(r.drop_first(), acc.push(c))
            } else if r.len() > 0 && r[0] == '}' {
                Option::Some((acc.push(c), r.drop_first()))
            } else {
                Option::None
            }
        } else {
            Option::None
        },
        Option::None => Option::None,
    }
}

/// Parses a whole durable document into its conversations, in document
/// order; the document must be consumed completely.
pub open spec fn spec_decode(s: Seq<char>) -> Option<Seq<ConvView>> {
    if s.len() > 0 && s[0] == '{' {
        let t = s.drop_first();
        if t.len() > 0 && t[0] == '}' {
            if t.len() == 1 {
                Option::Some(Seq::empty())
            } else {
                Option::None
            }
        } else {
            match p_convs_rest(t, Seq::empty()) {
                Option::Some((cs, r)) => if r.len() == 0 {
                    Option::Some(cs)
                } else {
                    Option::None
                },
                Option::None => Option::None,
            }
        }
    } else {
        Option::None
    }
}

/// Appending one character escapes it at the end of the body.
proof fn lemma_enc_str_body_snoc(v: Seq<char>, c: char)
    ensures
        enc_str_body(v.push(c)) == enc_str_body(v) + esc_char(c),
    decreases v.len(),
{
    if v.len() == 0 {
        assert(v.push(c)[0] == c);
        assert(v.push(c).drop_first() =~= Seq::<char>::empty());
        assert(v =~= Seq::<char>::empty());
        assert(enc_str_body(Seq::<char>::empty()) == Seq::<char>::empty());
        assert(enc_str_body(v.push(c)) == esc_char(c) + enc_str_body(Seq::<char>::empty()));
        assert(enc_str_body(v.push(c)) =~= enc_str_body(v) + esc_char(c));
    } else {
        assert(v.push(c)[0] == v[0]);
        assert(v.push(c).drop_first() =~= v.drop_first().push(c));
        lemma_enc_str_body_snoc(v.drop_first(), c);
        assert(enc_str_body(v.push(c)) =~= enc_str_body(v) + esc_char(c));
    }
}

/// Appending one source extends the comma-joined encoding at the end.
proof fn lemma_sources_items_snoc(ss: Seq<SourceView>, x: SourceView)
    ensures
        enc_sources_items(ss.push(x)) == if ss.len() == 0 {
            enc_source(x)
        } else {
            enc_sources_items(ss) + seq![','] + enc_source(x)
        },
    decreases ss.len(),
{
    let t = ss.push(x);
    if ss.len() == 0 {
        assert(t.len() == 1);
        assert(t[0] == x);
    } else {
        assert(t[0] == ss[0]);
        assert(t.drop_first() =~= ss.drop_first().push(x));
        lemma_sources_items_snoc(ss.drop_first(), x);
        if ss.len() == 1 {
            assert(enc_sources_items(t) =~= enc_sources_items(ss) + seq![','] + enc_source(x));
        } else {
            assert(enc_sources_items(t) =~= enc_sources_items(ss) + seq![','] + enc_source(x));
        }
    }
}

/// Appending one message extends the comma-joined encoding at the end.
proof fn lemma_msgs_items_snoc(ms: Seq<MessageView>, x: MessageView)
    ensures
        enc_msgs_items(ms.push(x)) == if ms.len() == 0 {
            enc_message(x)
        } else {
            enc_msgs_items(ms) + seq![','] + enc_message(x)
        },
    decreases ms.len(),
{
    let t = ms.push(x);
    if ms.len() == 0 {
        assert(t[0] == x);
    } else {
        assert(t[0] == ms[0]);
        assert(t.drop_first() =~= ms.drop_first().push(x));
        lemma_msgs_items_snoc(ms.drop_first(), x);
        assert(enc_msgs_items(t) =~= enc_msgs_items(ms) + seq![','] + enc_message(x));
    }
}

/// Appending one conversation extends the comma-joined encoding at the end.
proof fn lemma_convs_items_snoc(cs: Seq<ConvView>, x: ConvView)
    ensures
        enc_convs_items(cs.push(x)) == if cs.len() == 0 {
            enc_conv(x)
        } else {
            enc_convs_items(cs) + seq![','] + enc_conv(x)
        },
    decreases cs.len(),
{
    let t = cs.push(x);
    if cs.len() == 0 {
        assert(t[0] == x);
    } else {
        assert(t[0] == cs[0]);
        assert(t.drop_first() =~= cs.drop_first().push(x));
        lemma_convs_items_snoc(cs.drop_first(), x);
        assert(enc_convs_items(t) =~= enc_convs_items(cs) + seq![','] + enc_conv(x));
    }
}

/// Appends the characters of a fixed text.
fn push_str_chars(out: &mut Vec<char>, s: &str)
    ensures
        final(out)@ == old(out)@ + s@,
{
    let cv = chars_of(s);
    let n = cv.len();
    let mut i: usize = 0;
    while i < n
        invariant
            cv@ == s@,
            n == cv@.len(),
            i <= n,
            out@ == old(out)@ + cv@.take(i as int),
        decreases n - i,
    {
        out.push(cv[i]);
        assert(out@ =~= old(out)@ + cv@.take(i + 1));
        i += 1;
    }
    assert(cv@.take(n as int) =~= s@);
}

/// Appends the decimal digits of a number.
fn push_digits(out: &mut Vec<char>, n: u128)
    ensures
        final(out)@ == old(out)@ + dec_digits(n as nat),
    decreases n,
{
    if n < 10 {
        out.push(hex_char_of(n as u8));
        assert(final(out)@ =~= old(out)@ + dec_digits(n as nat));
    } else {
        push_digits(out, n / 10);
        out.push(hex_char_of((n % 10) as u8));
        assert(final(out)@ =~= old(out)@ + dec_digits(n as nat));
    }
}

/// Appends the quoted, escaped form of a string.
fn push_string_enc(out: &mut Vec<char>, s: &str)
    ensures
        final(out)@ == old(out)@ + enc_string(s@),
{
    out.push('"');
    let cv = chars_of(s);
    let n = cv.len();
    let ghost base = out@;
    let mut i: usize = 0;
    while i < n
        invariant
            cv@ == s@,
            n == cv@.len(),
            i <= n,
            out@ == base + enc_str_body(cv@.take(i as int)),
        decreases n - i,
    {
        let c = cv[i];
        proof {
            assert(cv@.take(i + 1) =~= cv@.take(i as int).push(c));
            lemma_enc_str_body_snoc(cv@.take(i as int), c);
        }
        if c == '"' {
            out.push('\\');
            out.push('"');
        } else if c == '\\' {
            out.push('\\');
            out.push('\\');
        } else if c == '\n' {
            out.push('\\');
            out.push('n');
        } else if c == '\r' {
            out.push('\\');
            out.push('r');
        } else if c == '\t' {
            out.push('\\');
            out.push('t');
        } else {
            let u = c as u32;
            if u < 32 {
                out.push('\\');
                out.push('u');
                out.push('0');
                out.push('0');
                out.push(hex_char_of((u / 16) as u8));
                out.push(hex_char_of((u % 16) as u8));
            } else {
                out.push(c);
            }
        }
        assert(out@ =~= base + enc_str_body(cv@.take(i + 1)));
        i += 1;
    }
    assert(cv@.take(n as int) =~= s@);
    out.push('"');
    assert(final(out)@ =~= old(out)@ + enc_string(s@));
}

/// Appends one encoded source object.
fn push_source(out: &mut Vec<char>, s: &WebSource)
    ensures
        final(out)@ == old(out)@ + enc_source(s@),
{
    push_str_chars(out, "{\"title\":");
    push_string_enc(out, s.title.as_str());
    push_str_chars(out, ",\"url\":");
    push_string_enc(out, s.url.as_str());
    push_str_chars(out, "}");
    assert(final(out)@ =~= old(out)@ + enc_source(s@));
}

/// Appends one encoded message object.
fn push_message(out: &mut Vec<char>, m: &ChatMessage)
    ensures
        final(out)@ == old(out)@ + enc_message(m@),
{
    push_str_chars(out, "{\"role\":");
    push_string_enc(out, m.role.as_str());
    push_str_chars(out, ",\"content\":");
    push_string_enc(out, m.content.as_str());
    push_str_chars(out, ",\"timestamp\":");
    push_digits(out, m.timestamp as u128);
    match &m.sources {
        Option::None => {},
        Option::Some(ss) => {
            push_str_chars(out, ",\"sources\":[");
            let ghost views = source_views(ss@);
            let ghost base = out@;
            let n = ss.len();
            let mut i: usize = 0;
            while i < n
                invariant
                    n == ss@.len(),
                    views == source_views(ss@),
                    i <= n,
                    out@ == base + enc_sources_items(views.take(i as int)),
                decreases n - i,
            {
                if i > 0 {
                    out.push(',');
                }
                push_source(out, &ss[i]);
                proof {
                    assert(views[i as int] == ss@[i as int]@);
                    assert(views.take(i + 1) =~= views.take(i as int).push(views[i as int]));
                    lemma_sources_items_snoc(views.take(i as int), views[i as int]);
                    assert(out@ =~= base + enc_sources_items(views.take(i + 1)));
                }
                i += 1;
            }
            assert(views.take(n as int) =~= views);
            push_str_chars(out, "]");
        },
    }
    push_str_chars(out, "}");
    assert(final(out)@ =~= old(out)@ + enc_message(m@));
}

/// Appends one encoded conversation.
fn push_conv(out: &mut Vec<char>, c: &Conversation)
    ensures
        final(out)@ == old(out)@ + enc_conv(c@),
{
    out.push('"');
    push_digits(out, c.id);
    push_str_chars(out, "\":[");
    let ghost views = msg_views(c.messages@);
    let ghost base = out@;
    let n = c.messages.len();
    let mut i: usize = 0;
    while i < n
        invariant
            n == c.messages@.len(),
            views == msg_views(c.messages@),
            i <= n,
            out@ == base + enc_msgs_items(views.take(i as int)),
        decreases n - i,
    {
        if i > 0 {
            out.push(',');
        }
        push_message(out, &c.messages[i]);
        proof {
            assert(views[i as int] == c.messages@[i as int]@);
            assert(views.take(i + 1) =~= views.take(i as int).push(views[i as int]));
            lemma_msgs_items_snoc(views.take(i as int), views[i as int]);
            assert(out@ =~= base + enc_msgs_items(views.take(i + 1)));
        }
        i += 1;
    }
    assert(views.take(n as int) =~= views);
    push_str_chars(out, "]");
    assert(final(out)@ =~= old(out)@ + enc_conv(c@));
}

/// Ten to the `k`.
pub open spec fn pow10(k: nat) -> nat
    decreases k,
{
    if k == 0 {
        1
    } else {
        10 * pow10((k - 1) as nat)
    }
}

/// Every character of a printed number is a digit, and printing inverts to
/// the digit values.
proof fn lemma_dec_digits_digits(n: nat)
    ensures
        dec_digits(n).len() >= 1,
        forall|k: int| 0 <= k < dec_digits(n).len() ==> is_digit(#[trigger] dec_digits(n)[k]),
    decreases n,
{
    if n < 10 {
        assert(is_digit(hex_char(n as u8)));
    } else {
        lemma_dec_digits_digits(n / 10);
        assert(is_digit(hex_char((n % 10) as u8)));
        assert(forall|k: int|
            0 <= k < dec_digits(n).len() - 1 ==> dec_digits(n)[k] == dec_digits(n / 10)[k]);
        assert(dec_digits(n).last() == hex_char((n % 10) as u8));
    }
}

/// Consuming a printed number folds exactly its value onto the
/// accumulator.
proof fn lemma_p_digits_append(n: nat, rest: Seq<char>, acc: nat)
    ensures
        p_digits(dec_digits(n) + rest, acc) == p_digits(
            rest,
            acc * pow10(dec_digits(n).len() as nat) + n,
        ),
    decreases n,
{
    lemma_dec_digits_digits(n);
    if n < 10 {
        let s = dec_digits(n) + rest;
        assert(s[0] == hex_char(n as u8));
        assert(is_digit(s[0]));
        assert(digit_val(hex_char(n as u8)) == n);
        assert(s.drop_first() =~= rest);
        assert(p_digits(s, acc) == p_digits(rest, acc * 10 + n));
        assert(pow10(0) == 1);
        assert(pow10(1) == 10);
    } else {
        let d = (n % 10) as nat;
        let hi = dec_digits(n / 10);
        assert(dec_digits(n) == hi.push(hex_char(d as u8)));
        assert(dec_digits(n) + rest =~= hi + (seq![hex_char(d as u8)] + rest));
        lemma_p_digits_append(n / 10, seq![hex_char(d as u8)] + rest, acc);
        let acc1 = acc * pow10(hi.len() as nat) + n / 10;
        let s1 = seq![hex_char(d as u8)] + rest;
        assert(s1[0] == hex_char(d as u8));
        assert(is_digit(s1[0]));
        assert(digit_val(hex_char(d as u8)) == d);
        assert(s1.drop_first() =~= rest);
        assert(p_digits(s1, acc1) == p_digits(rest, acc1 * 10 + d));
        let ln = dec_digits(n).len() as nat;
        assert(ln == hi.len() + 1);
        assert(pow10(ln) == 10 * pow10(hi.len() as nat));
        assert(acc1 * 10 + d == acc * pow10(ln) + n) by (nonlinear_arith)
            requires
                acc1 == acc * pow10(hi.len() as nat) + n / 10,
                pow10(ln) == 10 * pow10(hi.len() as nat),
                d == n % 10,
                n >= 10,
        {
        }
    }
}

/// Parsing a printed number followed by a non-digit yields the number.
proof fn lemma_number_round_trip(n: nat, rest: Seq<char>)
    requires
        rest.len() == 0 || !is_digit(rest[0]),
    ensures
        p_number(dec_digits(n) + rest) == Some((n, rest)),
{
    lemma_dec_digits_digits(n);
    let s = dec_digits(n) + rest;
    assert(s[0] == dec_digits(n)[0]);
    lemma_p_digits_append(n, rest, 0);
    assert(0 * pow10(dec_digits(n).len() as nat) == 0) by (nonlinear_arith) {
    }
    assert(p_digits(rest, n) == (n, rest));
}

/// Hexadecimal printing inverts to the value.
proof fn lemma_hex_round(x: u8)
    requires
        x < 16,
    ensures
        is_hex_digit(hex_char(x)),
        hex_val(hex_char(x)) == x,
{
}

/// Parsing an escaped body followed by a closing quote yields the original
/// characters and stops at the quote.
proof fn lemma_str_body_round_trip(v: Seq<char>, rest: Seq<char>)
    requires
        rest.len() > 0,
        rest[0] == '"',
    ensures
        p_str_body(enc_str_body(v) + rest) == Some((v, rest)),
    decreases v.len(),
{
    let s = enc_str_body(v) + rest;
    if v.len() == 0 {
        assert(enc_str_body(v) == Seq::<char>::empty());
        assert(s =~= rest);
        assert(p_str_body(s) == Some((Seq::<char>::empty(), s)));
        assert(v =~= Seq::<char>::empty());
    } else {
        let c = v[0];
        let v1 = v.drop_first();
        lemma_str_body_round_trip(v1, rest);
        let tail = enc_str_body(v1) + rest;
        assert(enc_str_body(v) == esc_char(c) + enc_str_body(v1));
        assert(s =~= esc_char(c) + tail);
        assert(v =~= seq![c] + v1);
        if c == '"' {
            assert(s[0] == '\\' && s[1] == '"');
            assert(s.skip(2) =~= tail);
            assert(p_str_body(s) == p_str_cons('"', tail));
        } else if c == '\\' {
            assert(s[0] == '\\' && s[1] == '\\');
            assert(s.skip(2) =~= tail);
            assert(p_str_body(s) == p_str_cons('\\', tail));
        } else if c == '\n' {
            assert(s[0] == '\\' && s[1] == 'n');
            assert(s.skip(2) =~= tail);
            assert(p_str_body(s) == p_str_cons('\n', tail));
        } else if c == '\r' {
            assert(s[0] == '\\' && s[1] == 'r');
            assert(s.skip(2) =~= tail);
            assert(p_str_body(s) == p_str_cons('\r', tail));
        } else if c == '\t' {
            assert(s[0] == '\\' && s[1] == 't');
            assert(s.skip(2) =~= tail);
            assert(p_str_body(s) == p_str_cons('\t', tail));
        } else if (c as u32) < 32 {
            let u = c as u32;
            let h1 = ((u / 16) as u8);
            let h2 = ((u % 16) as u8);
            assert(esc_char(c) == seq!['\\', 'u', '0', '0', hex_char(h1), hex_char(h2)]);
            assert(s[0] == '\\' && s[1] == 'u' && s[2] == '0' && s[3] == '0');
            assert(s[4] == hex_char(h1) && s[5] == hex_char(h2));
            lemma_hex_round(h1);
            lemma_hex_round(h2);
            assert(hex_val(s[4]) * 16 + hex_val(s[5]) == u);
            assert(s.skip(6) =~= tail);
            vstd::utf8::char_u32_cast(c, u);
            assert(((u as u32) as char) == c);
            assert(p_str_body(s) == p_str_cons(c, tail));
        } else {
            assert(esc_char(c) == seq![c]);
            assert(s[0] == c);
            assert(c != '"' && c != '\\');
            assert((s[0] as u32) >= 32);
            assert(s.drop_first() =~= tail);
            assert(p_str_body(s) == p_str_cons(c, tail));
        }
        assert(p_str_cons(c, tail) == Some((seq![c] + v1, rest)));
    }
}

/// Parsing an encoded string yields the original characters.
proof fn lemma_string_round_trip(v: Seq<char>, rest: Seq<char>)
    ensures
        p_string(enc_string(v) + rest) == Some((v, rest)),
{
    let s = enc_string(v) + rest;
    assert(s[0] == '"');
    assert(s.drop_first() =~= enc_str_body(v) + (seq!['"'] + rest));
    let quoted_rest = seq!['"'] + rest;
    lemma_str_body_round_trip(v, quoted_rest);
    assert(p_str_body(s.drop_first()) == Some((v, quoted_rest)));
    assert(quoted_rest[0] == '"');
    assert(quoted_rest.drop_first() =~= rest);
}

/// Consuming a literal that was just written succeeds.
proof fn lemma_expect(lit: Seq<char>, rest: Seq<char>)
    ensures
        expect(lit + rest, lit) == Some(rest),
{
    assert((lit + rest).take(lit.len() as int) =~= lit);
    assert((lit + rest).skip(lit.len() as int) =~= rest);
}

/// Parsing an encoded source yields the original source.
proof fn lemma_source_round_trip(sv: SourceView, rest: Seq<char>)
    ensures
        p_source(enc_source(sv) + rest) == Some((sv, rest)),
{
    let s = enc_source(sv) + rest;
    let r4 = "}"@ + rest;
    let r3 = enc_string(sv.url) + r4;
    let r2 = ",\"url\":"@ + r3;
    let r1 = enc_string(sv.title) + r2;
    assert(s =~= "{\"title\":"@ + r1);
    lemma_expect("{\"title\":"@, r1);
    lemma_string_round_trip(sv.title, r2);
    lemma_expect(",\"url\":"@, r3);
    lemma_string_round_trip(sv.url, r4);
    lemma_expect("}"@, rest);
    assert(SourceView { title: sv.title, url: sv.url } == sv);
}

/// An encoded string is at least its two quotes long.
proof fn lemma_enc_string_len(v: Seq<char>)
    ensures
        enc_string(v).len() >= 2,
{
}

/// Parsing the encoded items of a non-empty source list up to the closing
/// bracket yields the original sources.
#[verifier::rlimit(60)]
#[verifier::spinoff_prover]
proof fn lemma_sources_rest_round_trip(ss: Seq<SourceView>, acc: Seq<SourceView>, rest: Seq<char>)
    requires
        ss.len() > 0,
    ensures
        p_sources_rest(enc_sources_items(ss) + (seq![']'] + rest), acc) == Some((acc + ss, rest)),
    decreases ss.len(),
{
    let s = enc_sources_items(ss) + (seq![']'] + rest);
    lemma_enc_string_len(ss[0].title);
    if ss.len() == 1 {
        assert(enc_sources_items(ss) == enc_source(ss[0]));
        lemma_source_round_trip(ss[0], seq![']'] + rest);
        let r = seq![']'] + rest;
        assert(p_source(s) == Some((ss[0], r)));
        assert(enc_source(ss[0]).len() >= 1);
        assert(r.len() < s.len());
        assert(r[0] == ']');
        assert(r.drop_first() =~= rest);
        assert(acc.push(ss[0]) =~= acc + ss);
    } else {
        let ss1 = ss.drop_first();
        let inner = enc_sources_items(ss1) + (seq![']'] + rest);
        assert(enc_sources_items(ss) == enc_source(ss[0]) + seq![','] + enc_sources_items(ss1));
        let r = seq![','] + inner;
        assert(s =~= enc_source(ss[0]) + r);
        lemma_source_round_trip(ss[0], r);
        assert(p_source(s) == Some((ss[0], r)));
        assert(enc_source(ss[0]).len() >= 1);
        assert(r.len() < s.len());
        assert(r[0] == ',');
        assert(r.drop_first() =~= inner);
        lemma_sources_rest_round_trip(ss1, acc.push(ss[0]), rest);
        assert(acc.push(ss[0]) + ss1 =~= acc + ss);
    }
}

/// Parsing an encoded source list (after the opening bracket) yields the
/// original sources.
proof fn lemma_sources_list_round_trip(ss: Seq<SourceView>, rest: Seq<char>)
    ensures
        p_sources_list(enc_sources_items(ss) + (seq![']'] + rest)) == Some((ss, rest)),
{
    let s = enc_sources_items(ss) + (seq![']'] + rest);
    if ss.len() == 0 {
        assert(enc_sources_items(ss) == Seq::<char>::empty());
        assert(s =~= seq![']'] + rest);
        assert(s[0] == ']');
        assert(s.drop_first() =~= rest);
    } else {
        reveal_strlit("{\"title\":");
        assert(enc_sources_items(ss).len() > 0);
        assert(s[0] == enc_sources_items(ss)[0]);
        if ss.len() == 1 {
            assert(enc_sources_items(ss)[0] == enc_source(ss[0])[0]);
        } else {
            assert(enc_sources_items(ss)[0] == enc_source(ss[0])[0]);
        }
        assert(enc_source(ss[0])[0] == "{\"title\":"@[0]);
        assert(s[0] != ']');
        lemma_sources_rest_round_trip(ss, Seq::empty(), rest);
        assert(Seq::<SourceView>::empty() + ss =~= ss);
    }
}

/// The printed role tag reads back as the same role.
proof fn lemma_role_round_trip(r: Role)
    ensures
        role_of_text(role_text(r)) == Some(r),
{
    reveal_strlit("system");
    reveal_strlit("user");
    reveal_strlit("assistant");
    assert("user"@.len() != "system"@.len());
    assert("assistant"@.len() != "system"@.len());
    assert("assistant"@.len() != "user"@.len());
}

/// Parsing an encoded message yields the original message.
#[verifier::rlimit(60)]
#[verifier::spinoff_prover]
proof fn lemma_message_round_trip(m: MessageView, rest: Seq<char>)
    ensures
        p_message(enc_message(m) + rest) == Some((m, rest)),
{
    reveal_strlit(",\"sources\":[");
    reveal_strlit("}");
    let s = enc_message(m) + rest;
    let sources_part: Seq<char> = match m.sources {
        Option::None => Seq::<char>::empty(),
        Option::Some(ss) => ",\"sources\":["@ + enc_sources_items(ss) + "]"@,
    };
    let r5 = "}"@ + rest;
    let r4 = sources_part + r5;
    let rts = dec_digits(m.timestamp as nat) + r4;
    let r3 = ",\"timestamp\":"@ + rts;
    let r2 = enc_string(m.content) + r3;
    let r1 = ",\"content\":"@ + r2;
    let rrole = enc_string(role_text(m.role)) + r1;
    assert(s =~= "{\"role\":"@ + rrole);
    lemma_expect("{\"role\":"@, rrole);
    lemma_string_round_trip(role_text(m.role), r1);
    lemma_role_round_trip(m.role);
    lemma_expect(",\"content\":"@, r2);
    lemma_string_round_trip(m.content, r3);
    lemma_expect(",\"timestamp\":"@, rts);
    assert(r4[0] == (match m.sources {
        Option::None => '}',
        Option::Some(_) => ',',
    }));
    assert(!is_digit(r4[0]));
    lemma_number_round_trip(m.timestamp as nat, r4);
    assert(p_number(rts) == Some((m.timestamp as nat, r4)));
    match m.sources {
        Option::None => {
            assert(r4 =~= r5);
            assert(expect(r4, ",\"sources\":["@) is None) by {
                assert(r4[0] == '}');
                assert(",\"sources\":["@[0] == ',');
                if expect(r4, ",\"sources\":["@) is Some {
                    assert(r4.take(",\"sources\":["@.len() as int)[0] == r4[0]);
                }
            }
            lemma_expect("}"@, rest);
        },
        Option::Some(ss) => {
            reveal_strlit("]");
            assert("]"@ =~= seq![']']);
            let inner = enc_sources_items(ss) + (seq![']'] + r5);
            assert(r4 =~= ",\"sources\":["@ + inner);
            lemma_expect(",\"sources\":["@, inner);
            lemma_sources_list_round_trip(ss, r5);
            assert(p_sources_list(inner) == Some((ss, r5)));
            lemma_expect("}"@, rest);
        },
    }
    assert(MessageView {
        role: m.role,
        content: m.content,
        timestamp: m.timestamp,
        sources: m.sources,
    } == m);
}

/// An encoded message is at least two characters long.
proof fn lemma_enc_message_len(m: MessageView)
    ensures
        enc_message(m).len() >= 2,
{
    lemma_enc_string_len(role_text(m.role));
}

/// Parsing the encoded items of a non-empty message list up to the closing
/// bracket yields the original messages.
#[verifier::rlimit(60)]
#[verifier::spinoff_prover]
proof fn lemma_msgs_rest_round_trip(ms: Seq<MessageView>, acc: Seq<MessageView>, rest: Seq<char>)
    requires
        ms.len() > 0,
    ensures
        p_msgs_rest(enc_msgs_items(ms) + (seq![']'] + rest), acc) == Some((acc + ms, rest)),
    decreases ms.len(),
{
    let s = enc_msgs_items(ms) + (seq![']'] + rest);
    lemma_enc_message_len(ms[0]);
    if ms.len() == 1 {
        assert(enc_msgs_items(ms) == enc_message(ms[0]));
        lemma_message_round_trip(ms[0], seq![']'] + rest);
        let r = seq![']'] + rest;
        assert(p_message(s) == Some((ms[0], r)));
        assert(r.len() < s.len());
        assert(r[0] == ']');
        assert(r.drop_first() =~= rest);
        assert(acc.push(ms[0]) =~= acc + ms);
    } else {
        let ms1 = ms.drop_first();
        let inner = enc_msgs_items(ms1) + (seq![']'] + rest);
        assert(enc_msgs_items(ms) == enc_message(ms[0]) + seq![','] + enc_msgs_items(ms1));
        let r = seq![','] + inner;
        assert(s =~= enc_message(ms[0]) + r);
        lemma_message_round_trip(ms[0], r);
        assert(p_message(s) == Some((ms[0], r)));
        assert(r.len() < s.len());
        assert(r[0] == ',');
        assert(r.drop_first() =~= inner);
        lemma_msgs_rest_round_trip(ms1, acc.push(ms[0]), rest);
        assert(acc.push(ms[0]) + ms1 =~= acc + ms);
    }
}

/// Parsing an encoded message list (after the opening bracket) yields the
/// original messages.
proof fn lemma_msgs_list_round_trip(ms: Seq<MessageView>, rest: Seq<char>)
    ensures
        p_msgs_list(enc_msgs_items(ms) + (seq![']'] + rest)) == Some((ms, rest)),
{
    let s = enc_msgs_items(ms) + (seq![']'] + rest);
    if ms.len() == 0 {
        assert(enc_msgs_items(ms) == Seq::<char>::empty());
        assert(s =~= seq![']'] + rest);
        assert(s[0] == ']');
        assert(s.drop_first() =~= rest);
    } else {
        reveal_strlit("{\"role\":");
        assert(s[0] == enc_msgs_items(ms)[0]);
        if ms.len() == 1 {
            assert(enc_msgs_items(ms)[0] == enc_message(ms[0])[0]);
        } else {
            assert(enc_msgs_items(ms)[0] == enc_message(ms[0])[0]);
        }
        assert(enc_message(ms[0])[0] == "{\"role\":"@[0]);
        assert(s[0] != ']');
        lemma_msgs_rest_round_trip(ms, Seq::empty(), rest);
        assert(Seq::<MessageView>::empty() + ms =~= ms);
    }
}

/// Parsing an encoded conversation yields the original conversation.
proof fn lemma_conv_round_trip(c: ConvView, rest: Seq<char>)
    ensures
        p_conv(enc_conv(c) + rest) == Some((c, rest)),
{
    reveal_strlit("\":[");
    reveal_strlit("]");
    assert("]"@ =~= seq![']']);
    let s = enc_conv(c) + rest;
    let r2 = enc_msgs_items(c.messages) + ("]"@ + rest);
    let rnum = "\":["@ + r2;
    assert(s =~= seq!['"'] + (dec_digits(c.id as nat) + rnum));
    assert(s[0] == '"');
    assert(s.drop_first() =~= dec_digits(c.id as nat) + rnum);
    assert(rnum[0] == '"');
    assert(!is_digit(rnum[0]));
    lemma_number_round_trip(c.id as nat, rnum);
    lemma_expect("\":["@, r2);
    assert(r2 =~= enc_msgs_items(c.messages) + (seq![']'] + rest));
    lemma_msgs_list_round_trip(c.messages, rest);
    assert(ConvView { id: c.id, messages: c.messages } == c);
}

/// An encoded conversation is at least two characters long.
proof fn lemma_enc_conv_len(c: ConvView)
    ensures
        enc_conv(c).len() >= 2,
{
    lemma_dec_digits_digits(c.id as nat);
}

/// Parsing the encoded items of a non-empty document up to the closing
/// brace yields the original conversations.
proof fn lemma_convs_rest_round_trip(cs: Seq<ConvView>, acc: Seq<ConvView>, rest: Seq<char>)
    requires
        cs.len() > 0,
    ensures
        p_convs_rest(enc_convs_items(cs) + (seq!['}'] + rest), acc) == Some((acc + cs, rest)),
    decreases cs.len(),
{
    let s = enc_convs_items(cs) + (seq!['}'] + rest);
    lemma_enc_conv_len(cs[0]);
    if cs.len() == 1 {
        assert(enc_convs_items(cs) == enc_conv(cs[0]));
        lemma_conv_round_trip(cs[0], seq!['}'] + rest);
        let r = seq!['}'] + rest;
        assert(p_conv(s) == Some((cs[0], r)));
        assert(r.len() < s.len());
        assert(r[0] == '}');
        assert(r.drop_first() =~= rest);
        assert(acc.push(cs[0]) =~= acc + cs);
    } else {
        let cs1 = cs.drop_first();
        let inner = enc_convs_items(cs1) + (seq!['}'] + rest);
        assert(enc_convs_items(cs) == enc_conv(cs[0]) + seq![','] + enc_convs_items(cs1));
        let r = seq![','] + inner;
        assert(s =~= enc_conv(cs[0]) + r);
        lemma_conv_round_trip(cs[0], r);
        assert(p_conv(s) == Some((cs[0], r)));
        assert(r.len() < s.len());
        assert(r[0] == ',');
        assert(r.drop_first() =~= inner);
        lemma_convs_rest_round_trip(cs1, acc.push(cs[0]), rest);
        assert(acc.push(cs[0]) + cs1 =~= acc + cs);
    }
}

/// Law: reloading a registry from the durable document the encoder wrote
/// reproduces the identical mapping of ids to ordered message lists — the
/// same conversations, in the same order, message for message.
pub proof fn lemma_registry_round_trip(cs: Seq<ConvView>)
    ensures
        spec_decode(enc_registry(cs)) == Some(cs),
{
    let s = enc_registry(cs);
    assert(s[0] == '{');
    let t = s.drop_first();
    assert(t =~= enc_convs_items(cs) + seq!['}']);
    if cs.len() == 0 {
        assert(enc_convs_items(cs) == Seq::<char>::empty());
        assert(t =~= seq!['}']);
        assert(t[0] == '}' && t.len() == 1);
        assert(cs =~= Seq::<ConvView>::empty());
    } else {
        lemma_enc_conv_len(cs[0]);
        assert(t[0] == enc_convs_items(cs)[0]);
        if cs.len() == 1 {
            assert(enc_convs_items(cs)[0] == enc_conv(cs[0])[0]);
        } else {
            assert(enc_convs_items(cs)[0] == enc_conv(cs[0])[0]);
        }
        assert(enc_conv(cs[0])[0] == '"');
        assert(t[0] != '}');
        assert(t =~= enc_convs_items(cs) + (seq!['}'] + Seq::<char>::empty()));
        lemma_convs_rest_round_trip(cs, Seq::empty(), Seq::empty());
        assert(p_convs_rest(t, Seq::empty()) == Some(
            (Seq::<ConvView>::empty() + cs, Seq::<char>::empty()),
        ));
        assert(Seq::<ConvView>::empty() + cs =~= cs);
    }
}

/// Renders the whole registry into its durable document.
pub fn encode_registry(convs: &Vec<Conversation>) -> (r: String)
    ensures
        r@ == enc_registry(conv_views(convs@)),
{
    let mut out: Vec<char> = Vec::new();
    out.push('{');
    let ghost views = conv_views(convs@);
    let ghost base = out@;
    let n = convs.len();
    let mut i: usize = 0;
    while i < n
        invariant
            n == convs@.len(),
            views == conv_views(convs@),
            i <= n,
            out@ == base + enc_convs_items(views.take(i as int)),
        decreases n - i,
    {
        if i > 0 {
            out.push(',');
        }
        push_conv(&mut out, &convs[i]);
        proof {
            assert(views[i as int] == convs@[i as int]@);
            assert(views.take(i + 1) =~= views.take(i as int).push(views[i as int]));
            lemma_convs_items_snoc(views.take(i as int), views[i as int]);
            assert(out@ =~= base + enc_convs_items(views.take(i + 1)));
        }
        i += 1;
    }
    assert(views.take(n as int) =~= views);
    out.push('}');
    assert(out@ =~= enc_registry(views));
    string_from_chars(&out)
}

/// Consumes a literal at a position.
fn x_expect(v: &Vec<char>, i: usize, lit: &Vec<char>) -> (r: Option<usize>)
    requires
        i <= v@.len(),
    ensures
        match r {
            Option::Some(j) => i <= j <= v@.len() && j - i == lit@.len() && expect(
                v@.skip(i as int),
                lit@,
            ) == Some(v@.skip(j as int)),
            Option::None => expect(v@.skip(i as int), lit@) is None,
        },
{
    let ghost s = v@.skip(i as int);
    if lit.len() > v.len() - i {
        assert(lit@.len() > s.len());
        return Option::None;
    }
    if crate::text::matches_at(v, lit, i) {
        proof {
            assert(s.take(lit@.len() as int) =~= v@.subrange(i as int, i + lit@.len()));
            assert(s.skip(lit@.len() as int) =~= v@.skip(i + lit@.len()));
        }
        Option::Some(i + lit.len())
    } else {
        proof {
            assert(s.take(lit@.len() as int) =~= v@.subrange(i as int, i + lit@.len()));
        }
        Option::None
    }
}

/// Folding more digits never shrinks the accumulated value.
proof fn lemma_p_digits_ge(s: Seq<char>, acc: nat)
    ensures
        p_digits(s, acc).0 >= acc,
    decreases s.len(),
{
    if s.len() > 0 && is_digit(s[0]) {
        let acc2 = acc * 10 + digit_val(s[0]);
        assert(acc2 >= acc) by (nonlinear_arith)
            requires
                acc2 == acc * 10 + digit_val(s[0]),
                acc >= 0,
        {
        }
        lemma_p_digits_ge(s.drop_first(), acc2);
    }
}

/// Is the character at this position a decimal digit?
fn is_digit_at(v: &Vec<char>, j: usize) -> (r: bool)
    requires
        j < v@.len(),
    ensures
        r == is_digit(v@[j as int]),
{
    let u = v[j] as u32;
    48 <= u && u <= 57
}

/// Parses a number at a position, within the range of the id type.
fn x_number(v: &Vec<char>, i: usize) -> (r: Option<(u128, usize)>)
    requires
        i <= v@.len(),
    ensures
        match r {
            Option::Some((n, j)) => i < j <= v@.len() && p_number(v@.skip(i as int)) == Some(
                ((n as nat), v@.skip(j as int)),
            ),
            Option::None => p_number(v@.skip(i as int)) is None || p_number(
                v@.skip(i as int),
            )->Some_0.0 > u128::MAX,
        },
{
    let ghost s0 = v@.skip(i as int);
    let n = v.len();
    if i >= n {
        return Option::None;
    }
    let c0 = v[i] as u32;
    if !(48 <= c0 && c0 <= 57) {
        assert(s0[0] == v@[i as int]);
        return Option::None;
    }
    assert(is_digit(s0[0]));
    let mut acc: u128 = 0;
    let mut j: usize = i;
    while j < n && is_digit_at(v, j)
        invariant
            n == v@.len(),
            i <= j <= n,
            s0 == v@.skip(i as int),
            p_digits(s0, 0) == p_digits(v@.skip(j as int), acc as nat),
        decreases n - j,
    {
        let d = (v[j] as u32 - 48) as u128;
        let ghost scur = v@.skip(j as int);
        assert(scur[0] == v@[j as int]);
        assert(is_digit(scur[0]) && digit_val(scur[0]) == d as nat);
        if acc > (u128::MAX - d) / 10 {
            proof {
                assert((acc as nat) * 10 + (d as nat) > u128::MAX) by (nonlinear_arith)
                    requires
                        acc > (u128::MAX - d) / 10,
                        d <= 9,
                {
                }
                assert(p_digits(scur, acc as nat) == p_digits(
                    scur.drop_first(),
                    (acc as nat) * 10 + (d as nat),
                ));
                lemma_p_digits_ge(scur.drop_first(), (acc as nat) * 10 + (d as nat));
            }
            return Option::None;
        }
        proof {
            assert((acc as nat) * 10 + (d as nat) <= u128::MAX) by (nonlinear_arith)
                requires
                    acc <= (u128::MAX - d) / 10,
                    d <= 9,
            {
            }
            assert(scur.drop_first() =~= v@.skip(j + 1));
        }
        acc = acc * 10 + d;
        j += 1;
    }
    proof {
        let scur = v@.skip(j as int);
        if j < n {
            assert(scur[0] == v@[j as int]);
            assert(!is_digit(scur[0]));
        } else {
            assert(scur.len() == 0);
        }
        assert(p_digits(scur, acc as nat) == ((acc as nat), scur));
    }
    Option::Some((acc, j))
}

/// Parses a quoted string at a position.
fn x_string(v: &Vec<char>, i: usize) -> (r: Option<(Vec<char>, usize)>)
    requires
        i <= v@.len(),
    ensures
        match r {
            Option::Some((val, j)) => i + 2 <= j <= v@.len() && p_string(v@.skip(i as int))
                == Some((val@, v@.skip(j as int))),
            Option::None => p_string(v@.skip(i as int)) is None,
        },
{
    let n = v.len();
    if i >= n || v[i] != '"' {
        proof {
            if i < n {
                assert(v@.skip(i as int)[0] == v@[i as int]);
            }
        }
        return Option::None;
    }
    assert(v@.skip(i as int)[0] == '"');
    let ghost body0 = v@.skip(i + 1);
    assert(v@.skip(i as int).drop_first() =~= body0);
    let mut out: Vec<char> = Vec::new();
    let mut j: usize = i + 1;
    loop
        invariant
            n == v@.len(),
            i + 1 <= j <= n,
            body0 == v@.skip(i + 1),
            v@.skip(i as int)[0] == '"',
            v@.skip(i as int).drop_first() == body0,
            p_str_body(body0) == (match p_str_body(v@.skip(j as int)) {
                Option::Some((tv, rr)) => Option::Some((out@ + tv, rr)),
                Option::None => Option::<(Seq<char>, Seq<char>)>::None,
            }),
        decreases n - j,
    {
        let ghost scur = v@.skip(j as int);
        if j >= n {
            assert(scur.len() == 0);
            assert(p_str_body(scur) is None);
            assert(p_str_body(body0) is None);
            return Option::None;
        }
        let c = v[j];
        assert(scur[0] == c);
        if c == '"' {
            proof {
                assert(p_str_body(scur) == Some((Seq::<char>::empty(), scur)));
                assert(out@ + Seq::<char>::empty() =~= out@);
                assert(p_str_body(body0) == Some((out@, scur)));
                assert(scur.drop_first() =~= v@.skip(j + 1));
            }
            return Option::Some((out, j + 1));
        }
        if c == '\\' {
            if j + 1 >= n {
                assert(scur.len() < 2);
                assert(p_str_body(scur) is None);
                return Option::None;
            }
            let e = v[j + 1];
            assert(scur[1] == e);
            assert(scur.len() >= 2);
            if e == '"' || e == '\\' || e == 'n' || e == 'r' || e == 't' {
                let decoded: char = if e == '"' {
                    '"'
                } else if e == '\\' {
                    '\\'
                } else if e == 'n' {
                    '\n'
                } else if e == 'r' {
                    '\r'
                } else {
                    '\t'
                };
                proof {
                    assert(scur.skip(2) =~= v@.skip(j + 2));
                    assert(p_str_body(scur) == p_str_cons(decoded, v@.skip(j + 2)));
                    let pb = p_str_body(v@.skip(j + 2));
                    if pb is Some {
                        assert(out@ + (seq![decoded] + pb->Some_0.0) =~= out@.push(decoded)
                            + pb->Some_0.0);
                    }
                }
                out.push(decoded);
                j += 2;
            } else if e == 'u' {
                if n - j < 6 {
                    assert(scur.len() < 6);
                    assert(p_str_body(scur) is None);
                    return Option::None;
                }
                assert(scur.len() >= 6);
                let h0 = v[j + 2];
                let h1 = v[j + 3];
                let d1 = v[j + 4];
                let d2 = v[j + 5];
                assert(scur[2] == h0 && scur[3] == h1 && scur[4] == d1 && scur[5] == d2);
                let u1 = d1 as u32;
                let u2 = d2 as u32;
                let hex1_ok = (48 <= u1 && u1 <= 57) || (65 <= u1 && u1 <= 70);
                let hex2_ok = (48 <= u2 && u2 <= 57) || (65 <= u2 && u2 <= 70);
                if h0 != '0' || h1 != '0' || !hex1_ok || !hex2_ok {
                    assert(p_str_body(scur) is None);
                    return Option::None;
                }
                let v1: u32 = if 48 <= u1 && u1 <= 57 {
                    u1 - 48
                } else {
                    u1 - 55
                };
                let v2: u32 = if 48 <= u2 && u2 <= 57 {
                    u2 - 48
                } else {
                    u2 - 55
                };
                let val: u32 = v1 * 16 + v2;
                assert(val == hex_val(d1) * 16 + hex_val(d2));
                if val >= 32 {
                    assert(p_str_body(scur) is None);
                    return Option::None;
                }
                let decoded: char = (val as u8) as char;
                proof {
                    assert(decoded == ((val as u32) as char));
                    assert(scur.skip(6) =~= v@.skip(j + 6));
                    assert(p_str_body(scur) == p_str_cons(decoded, v@.skip(j + 6)));
                    let pb = p_str_body(v@.skip(j + 6));
                    if pb is Some {
                        assert(out@ + (seq![decoded] + pb->Some_0.0) =~= out@.push(decoded)
                            + pb->Some_0.0);
                    }
                }
                out.push(decoded);
                j += 6;
            } else {
                assert(p_str_body(scur) is None);
                return Option::None;
            }
        } else {
            let u = c as u32;
            if u < 32 {
                assert(p_str_body(scur) is None);
                return Option::None;
            }
            proof {
                assert(scur.drop_first() =~= v@.skip(j + 1));
                assert(p_str_body(scur) == p_str_cons(c, v@.skip(j + 1)));
                let pb = p_str_body(v@.skip(j + 1));
                if pb is Some {
                    assert(out@ + (seq![c] + pb->Some_0.0) =~= out@.push(c) + pb->Some_0.0);
                }
            }
            out.push(c);
            j += 1;
        }
    }
}

/// Parses one source object at a position.
fn x_source(v: &Vec<char>, i: usize) -> (r: Option<(WebSource, usize)>)
    requires
        i <= v@.len(),
    ensures
        match r {
            Option::Some((src, j)) => i < j <= v@.len() && p_source(v@.skip(i as int)) == Some(
                (src@, v@.skip(j as int)),
            ),
            Option::None => p_source(v@.skip(i as int)) is None,
        },
{
    let lit_title = chars_of("{\"title\":");
    let j1 = match x_expect(v, i, &lit_title) {
        Option::Some(j) => j,
        Option::None => {
            return Option::None;
        },
    };
    let (titlev, j2) = match x_string(v, j1) {
        Option::Some(p) => p,
        Option::None => {
            return Option::None;
        },
    };
    let lit_url = chars_of(",\"url\":");
    let j3 = match x_expect(v, j2, &lit_url) {
        Option::Some(j) => j,
        Option::None => {
            return Option::None;
        },
    };
    let (urlv, j4) = match x_string(v, j3) {
        Option::Some(p) => p,
        Option::None => {
            return Option::None;
        },
    };
    let lit_close = chars_of("}");
    let j5 = match x_expect(v, j4, &lit_close) {
        Option::Some(j) => j,
        Option::None => {
            return Option::None;
        },
    };
    let src = WebSource { title: string_from_chars(&titlev), url: string_from_chars(&urlv) };
    assert(src@ == (SourceView { title: titlev@, url: urlv@ }));
    Option::Some((src, j5))
}

/// Parses a source list (after the opening bracket) at a position.
fn x_sources_list(v: &Vec<char>, i: usize) -> (r: Option<(Vec<WebSource>, usize)>)
    requires
        i <= v@.len(),
    ensures
        match r {
            Option::Some((srcs, j)) => i < j <= v@.len() && p_sources_list(v@.skip(i as int))
                == Some((source_views(srcs@), v@.skip(j as int))),
            Option::None => p_sources_list(v@.skip(i as int)) is None,
        },
{
    let n = v.len();
    if i < n && v[i] == ']' {
        assert(v@.skip(i as int)[0] == ']');
        let out: Vec<WebSource> = Vec::new();
        proof {
            assert(source_views(out@) =~= Seq::<SourceView>::empty());
            assert(v@.skip(i as int).drop_first() =~= v@.skip(i + 1));
        }
        return Option::Some((out, i + 1));
    }
    proof {
        if i < n {
            assert(v@.skip(i as int)[0] == v@[i as int]);
        }
        assert(p_sources_list(v@.skip(i as int)) == p_sources_rest(
            v@.skip(i as int),
            Seq::empty(),
        ));
    }
    let mut out: Vec<WebSource> = Vec::new();
    proof {
        assert(source_views(out@) =~= Seq::<SourceView>::empty());
    }
    let mut j: usize = i;
    loop
        invariant
            n == v@.len(),
            i <= j <= n,
            p_sources_rest(v@.skip(i as int), Seq::empty()) == p_sources_rest(
                v@.skip(j as int),
                source_views(out@),
            ),
            p_sources_list(v@.skip(i as int)) == p_sources_rest(v@.skip(i as int), Seq::empty()),
        decreases n - j,
    {
        let ghost scur = v@.skip(j as int);
        let ghost sv = source_views(out@);
        match x_source(v, j) {
            Option::None => {
                return Option::None;
            },
            Option::Some((src, j2)) => {
                proof {
                    assert(v@.skip(j2 as int).len() < scur.len());
                }
                if j2 < n && v[j2] == ',' {
                    proof {
                        assert(v@.skip(j2 as int)[0] == ',');
                        assert(v@.skip(j2 as int).drop_first() =~= v@.skip(j2 + 1));
                        assert(p_sources_rest(scur, sv) == p_sources_rest(
                            v@.skip(j2 + 1),
                            sv.push(src@),
                        ));
                    }
                    let ghost presrc = src@;
                    out.push(src);
                    proof {
                        assert(source_views(out@) =~= sv.push(presrc));
                    }
                    j = j2 + 1;
                } else if j2 < n && v[j2] == ']' {
                    proof {
                        assert(v@.skip(j2 as int)[0] == ']');
                        assert(v@.skip(j2 as int).drop_first() =~= v@.skip(j2 + 1));
                    }
                    let ghost presrc = src@;
                    out.push(src);
                    proof {
                        assert(source_views(out@) =~= sv.push(presrc));
                        assert(p_sources_rest(scur, sv) == Some(
                            (source_views(out@), v@.skip(j2 + 1)),
                        ));
                    }
                    return Option::Some((out, j2 + 1));
                } else {
                    proof {
                        if j2 < n {
                            assert(v@.skip(j2 as int)[0] == v@[j2 as int]);
                        } else {
                            assert(v@.skip(j2 as int).len() == 0);
                        }
                        assert(p_sources_rest(scur, sv) is None);
                    }
                    return Option::None;
                }
            },
        }
    }
}

/// The role a parsed role tag denotes.
fn role_from_chars(tv: &Vec<char>) -> (r: Option<Role>)
    ensures
        r == role_of_text(tv@),
{
    let sys = chars_of("system");
    if crate::text::vec_eq_chars(tv, &sys) {
        return Option::Some(Role::System);
    }
    let usr = chars_of("user");
    if crate::text::vec_eq_chars(tv, &usr) {
        return Option::Some(Role::User);
    }
    let asst = chars_of("assistant");
    if crate::text::vec_eq_chars(tv, &asst) {
        return Option::Some(Role::Assistant);
    }
    Option::None
}

/// Parses one message object at a position.
fn x_message(v: &Vec<char>, i: usize) -> (r: Option<(ChatMessage, usize)>)
    requires
        i <= v@.len(),
    ensures
        match r {
            Option::Some((m, j)) => i < j <= v@.len() && p_message(v@.skip(i as int)) == Some(
                (m@, v@.skip(j as int)),
            ),
            Option::None => p_message(v@.skip(i as int)) is None,
        },
{
    let lit_role = chars_of("{\"role\":");
    let j1 = match x_expect(v, i, &lit_role) {
        Option::Some(j) => j,
        Option::None => {
            return Option::None;
        },
    };
    let (rolev, j2) = match x_string(v, j1) {
        Option::Some(p) => p,
        Option::None => {
            return Option::None;
        },
    };
    let role = match role_from_chars(&rolev) {
        Option::Some(r) => r,
        Option::None => {
            return Option::None;
        },
    };
    let lit_content = chars_of(",\"content\":");
    let j3 = match x_expect(v, j2, &lit_content) {
        Option::Some(j) => j,
        Option::None => {
            return Option::None;
        },
    };
    let (contentv, j4) = match x_string(v, j3) {
        Option::Some(p) => p,
        Option::None => {
            return Option::None;
        },
    };
    let lit_ts = chars_of(",\"timestamp\":");
    let mut ts: u64 = 0;
    let mut j5: usize = j4;
    match x_expect(v, j4, &lit_ts) {
        Option::Some(j4a) => {
            match x_number(v, j4a) {
                Option::Some((nv, j4b)) => {
                    if nv > u64::MAX as u128 {
                        return Option::None;
                    }
                    ts = nv as u64;
                    j5 = j4b;
                },
                Option::None => {
                    return Option::None;
                },
            }
        },
        Option::None => {},
    }
    let lit_src = chars_of(",\"sources\":[");
    let mut sources: Option<Vec<WebSource>> = Option::None;
    let mut j6: usize = j5;
    match x_expect(v, j5, &lit_src) {
        Option::Some(j5a) => {
            match x_sources_list(v, j5a) {
                Option::Some((ss, j5b)) => {
                    sources = Option::Some(ss);
                    j6 = j5b;
                },
                Option::None => {
                    return Option::None;
                },
            }
        },
        Option::None => {},
    }
    let lit_close = chars_of("}");
    let j7 = match x_expect(v, j6, &lit_close) {
        Option::Some(j) => j,
        Option::None => {
            return Option::None;
        },
    };
    let ghost srcs_view: Option<Seq<SourceView>> = match &sources {
        Option::Some(ss) => Option::Some(source_views(ss@)),
        Option::None => Option::None,
    };
    let m = ChatMessage { role, content: string_from_chars(&contentv), timestamp: ts, sources };
    assert(m@ == (MessageView { role, content: contentv@, timestamp: ts, sources: srcs_view }));
    Option::Some((m, j7))
}

/// Parses a message list (after the opening bracket) at a position.
fn x_msgs_list(v: &Vec<char>, i: usize) -> (r: Option<(Vec<ChatMessage>, usize)>)
    requires
        i <= v@.len(),
    ensures
        match r {
            Option::Some((ms, j)) => i < j <= v@.len() && p_msgs_list(v@.skip(i as int)) == Some(
                (msg_views(ms@), v@.skip(j as int)),
            ),
            Option::None => p_msgs_list(v@.skip(i as int)) is None,
        },
{
    let n = v.len();
    if i < n && v[i] == ']' {
        assert(v@.skip(i as int)[0] == ']');
        let out: Vec<ChatMessage> = Vec::new();
        proof {
            assert(msg_views(out@) =~= Seq::<MessageView>::empty());
            assert(v@.skip(i as int).drop_first() =~= v@.skip(i + 1));
        }
        return Option::Some((out, i + 1));
    }
    proof {
        if i < n {
            assert(v@.skip(i as int)[0] == v@[i as int]);
        }
        assert(p_msgs_list(v@.skip(i as int)) == p_msgs_rest(v@.skip(i as int), Seq::empty()));
    }
    let mut out: Vec<ChatMessage> = Vec::new();
    proof {
        assert(msg_views(out@) =~= Seq::<MessageView>::empty());
    }
    let mut j: usize = i;
    loop
        invariant
            n == v@.len(),
            i <= j <= n,
            p_msgs_rest(v@.skip(i as int), Seq::empty()) == p_msgs_rest(
                v@.skip(j as int),
                msg_views(out@),
            ),
            p_msgs_list(v@.skip(i as int)) == p_msgs_rest(v@.skip(i as int), Seq::empty()),
        decreases n - j,
    {
        let ghost scur = v@.skip(j as int);
        let ghost mv = msg_views(out@);
        match x_message(v, j) {
            Option::None => {
                return Option::None;
            },
            Option::Some((m, j2)) => {
                proof {
                    assert(v@.skip(j2 as int).len() < scur.len());
                }
                if j2 < n && v[j2] == ',' {
                    proof {
                        assert(v@.skip(j2 as int)[0] == ',');
                        assert(v@.skip(j2 as int).drop_first() =~= v@.skip(j2 + 1));
                        assert(p_msgs_rest(scur, mv) == p_msgs_rest(v@.skip(j2 + 1), mv.push(m@)));
                    }
                    let ghost prem = m@;
                    out.push(m);
                    proof {
                        assert(msg_views(out@) =~= mv.push(prem));
                    }
                    j = j2 + 1;
                } else if j2 < n && v[j2] == ']' {
                    proof {
                        assert(v@.skip(j2 as int)[0] == ']');
                        assert(v@.skip(j2 as int).drop_first() =~= v@.skip(j2 + 1));
                    }
                    let ghost prem = m@;
                    out.push(m);
                    proof {
                        assert(msg_views(out@) =~= mv.push(prem));
                        assert(p_msgs_rest(scur, mv) == Some((msg_views(out@), v@.skip(j2 + 1))));
                    }
                    return Option::Some((out, j2 + 1));
                } else {
                    proof {
                        if j2 < n {
                            assert(v@.skip(j2 as int)[0] == v@[j2 as int]);
                        } else {
                            assert(v@.skip(j2 as int).len() == 0);
                        }
                        assert(p_msgs_rest(scur, mv) is None);
                    }
                    return Option::None;
                }
            },
        }
    }
}

/// Parses one conversation at a position.
fn x_conv(v: &Vec<char>, i: usize) -> (r: Option<(Conversation, usize)>)
    requires
        i <= v@.len(),
    ensures
        match r {
            Option::Some((c, j)) => i < j <= v@.len() && p_conv(v@.skip(i as int)) == Some(
                (c@, v@.skip(j as int)),
            ),
            Option::None => p_conv(v@.skip(i as int)) is None,
        },
{
    let n = v.len();
    if i >= n || v[i] != '"' {
        proof {
            if i < n {
                assert(v@.skip(i as int)[0] == v@[i as int]);
            }
        }
        return Option::None;
    }
    proof {
        assert(v@.skip(i as int)[0] == '"');
        assert(v@.skip(i as int).drop_first() =~= v@.skip(i + 1));
    }
    let (id, j1) = match x_number(v, i + 1) {
        Option::Some(p) => p,
        Option::None => {
            return Option::None;
        },
    };
    let lit_key = chars_of("\":[");
    let j2 = match x_expect(v, j1, &lit_key) {
        Option::Some(j) => j,
        Option::None => {
            return Option::None;
        },
    };
    let (msgs, j3) = match x_msgs_list(v, j2) {
        Option::Some(p) => p,
        Option::None => {
            return Option::None;
        },
    };
    let c = Conversation { id, messages: msgs };
    assert(c@ == (ConvView { id, messages: msg_views(msgs@) }));
    Option::Some((c, j3))
}

/// Parses a whole durable document, in document order; fails on anything
/// the encoder would not write.
pub fn decode_registry(doc: &str) -> (r: Option<Vec<Conversation>>)
    ensures
        match r {
            Option::Some(convs) => spec_decode(doc@) == Some(conv_views(convs@)),
            Option::None => spec_decode(doc@) is None,
        },
{
    let v = chars_of(doc);
    let n = v.len();
    if n == 0 || v[0] != '{' {
        return Option::None;
    }
    assert(v@[0] == '{');
    let ghost t = v@.drop_first();
    proof {
        assert(t =~= v@.skip(1));
    }
    if n >= 2 && v[1] == '}' {
        assert(t[0] == '}');
        if n == 2 {
            let out: Vec<Conversation> = Vec::new();
            proof {
                assert(conv_views(out@) =~= Seq::<ConvView>::empty());
            }
            return Option::Some(out);
        } else {
            return Option::None;
        }
    }
    if n == 1 {
        assert(t.len() == 0);
        assert(p_conv(t) is None);
        return Option::None;
    }
    proof {
        assert(t[0] == v@[1]);
        assert(t[0] != '}');
    }
    let mut out: Vec<Conversation> = Vec::new();
    proof {
        assert(conv_views(out@) =~= Seq::<ConvView>::empty());
    }
    let mut j: usize = 1;
    loop
        invariant
            v@ == doc@,
            n == v@.len(),
            n >= 2,
            1 <= j <= n,
            t == v@.skip(1),
            v@[0] == '{',
            t.len() > 0 && t[0] != '}',
            p_convs_rest(t, Seq::empty()) == p_convs_rest(v@.skip(j as int), conv_views(out@)),
        decreases n - j,
    {
        let ghost scur = v@.skip(j as int);
        let ghost cv = conv_views(out@);
        match x_conv(&v, j) {
            Option::None => {
                return Option::None;
            },
            Option::Some((c, j2)) => {
                proof {
                    assert(v@.skip(j2 as int).len() < scur.len());
                }
                if j2 < n && v[j2] == ',' {
                    proof {
                        assert(v@.skip(j2 as int)[0] == ',');
                        assert(v@.skip(j2 as int).drop_first() =~= v@.skip(j2 + 1));
                        assert(p_convs_rest(scur, cv) == p_convs_rest(v@.skip(j2 + 1), cv.push(c@)));
                    }
                    let ghost prec = c@;
                    out.push(c);
                    proof {
                        assert(conv_views(out@) =~= cv.push(prec));
                    }
                    j = j2 + 1;
                } else if j2 < n && v[j2] == '}' {
                    proof {
                        assert(v@.skip(j2 as int)[0] == '}');
                        assert(v@.skip(j2 as int).drop_first() =~= v@.skip(j2 + 1));
                    }
                    let ghost prec = c@;
                    out.push(c);
                    proof {
                        assert(conv_views(out@) =~= cv.push(prec));
                        assert(p_convs_rest(scur, cv) == Some((conv_views(out@), v@.skip(j2 + 1))));
                    }
                    if j2 + 1 == n {
                        assert(v@.skip(j2 + 1).len() == 0);
                        return Option::Some(out);
                    } else {
                        assert(v@.skip(j2 + 1).len() != 0);
                        return Option::None;
                    }
                } else {
                    proof {
                        if j2 < n {
                            assert(v@.skip(j2 as int)[0] == v@[j2 as int]);
                        } else {
                            assert(v@.skip(j2 as int).len() == 0);
                        }
                        assert(p_convs_rest(scur, cv) is None);
                    }
                    return Option::None;
                }
            },
        }
    }
}

/// Do two conversations share an id?
fn has_duplicate_id(convs: &Vec<Conversation>) -> (r: bool)
    ensures
        r == !crate::session::ids_unique_in(conv_views(convs@)),
{
    let n = convs.len();
    let mut i: usize = 0;
    while i < n
        invariant
            n == convs@.len(),
            i <= n,
            forall|a: int, b: int|
                0 <= a < b < n && a < i ==> conv_views(convs@)[a].id != conv_views(convs@)[b].id,
        decreases n - i,
    {
        let mut k: usize = i + 1;
        while k < n
            invariant
                n == convs@.len(),
                i < n,
                i + 1 <= k <= n,
                forall|b: int|
                    i < b < k ==> conv_views(convs@)[i as int].id != conv_views(convs@)[b].id,
            decreases n - k,
        {
            if convs[i].id == convs[k].id {
                assert(conv_views(convs@)[i as int].id == conv_views(convs@)[k as int].id);
                return true;
            }
            k += 1;
        }
        i += 1;
    }
    false
}

impl crate::session::SessionStore {
    /// Restores a registry from its durable document: the decoded
    /// conversations in document order, with no active conversation and the
    /// automatic mode. A document that does not decode, or that repeats a
    /// conversation id (the encoder writes neither), yields an empty
    /// registry instead.
    pub fn restore(doc: &str) -> (s: crate::session::SessionStore)
        ensures
            s@.wf(),
            s@.active_id is None,
            s@.current_mode == MiaMode::Auto,
            match spec_decode(doc@) {
                Option::Some(cs) => s@.convs == if crate::session::ids_unique_in(cs) {
                    cs
                } else {
                    Seq::<ConvView>::empty()
                },
                Option::None => s@.convs == Seq::<ConvView>::empty(),
            },
    {
        match decode_registry(doc) {
            Option::Some(convs) => {
                if has_duplicate_id(&convs) {
                    let s = crate::session::SessionStore::new();
                    proof {
                        assert(s@.convs =~= Seq::<ConvView>::empty());
                    }
                    s
                } else {
                    let s = crate::session::SessionStore {
                        convs,
                        active_id: Option::None,
                        current_mode: MiaMode::Auto,
                    };
                    s
                }
            },
            Option::None => {
                let s = crate::session::SessionStore::new();
                proof {
                    assert(s@.convs =~= Seq::<ConvView>::empty());
                }
                s
            },
        }
    }
}

} // verus!

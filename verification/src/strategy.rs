//! Traffic split strategies and their JSON spelling, the form the store
//! keeps them in.

use vstd::prelude::*;

use crate::text::all_digits;
use crate::text::dec_rep;
use crate::text::dec_value;
use crate::text::format_u64;
use crate::text::lemma_dec_rep_value;
use crate::text::parse_u64;
use crate::text::starts_with;

verus! {

/// How a version attracts new visitors.
///
/// A `Weight(w)` version receives a share of cookieless traffic
/// proportional to `w` against the sum of all weights; `Weight(0)` is
/// eligible only when every weight is zero. A `UrlParam(needle)` version
/// captures every request whose raw query string contains `needle`.
#[derive(Debug)]
pub enum Strategy {
    Weight(u16),
    UrlParam(String),
}

/// The mathematical shape of a strategy: the url-param needle as a
/// character sequence.
pub enum StrategyView {
    Weight(u16),
    UrlParam(Seq<char>),
}

impl View for Strategy {
    type V = StrategyView;

    open spec fn view(&self) -> StrategyView {
        match self {
            Strategy::Weight(w) => StrategyView::Weight(*w),
            Strategy::UrlParam(s) => StrategyView::UrlParam(s@),
        }
    }
}

impl Clone for Strategy {
    fn clone(&self) -> (r: Self)
        ensures
            r@ == self@,
    {
        match self {
            Strategy::Weight(w) => Strategy::Weight(*w),
            Strategy::UrlParam(s) => Strategy::UrlParam(s.clone()),
        }
    }
}

/// How one needle character is written between the quotes: quotes and
/// backslashes under a backslash, everything else verbatim.
pub open spec fn esc_char(c: char) -> Seq<char> {
    if c == '"' || c == '\\' {
        seq!['\\', c]
    } else {
        seq![c]
    }
}

/// A whole needle as it is written between the quotes.
pub open spec fn escape_seq(s: Seq<char>) -> Seq<char>
    decreases s.len(),
{
    if s.len() == 0 {
        Seq::empty()
    } else {
        esc_char(s[0]) + escape_seq(s.drop_first())
    }
}

/// Escaping one more character appends its written form.
pub proof fn lemma_escape_seq_snoc(s: Seq<char>, c: char)
    ensures
        escape_seq(s.push(c)) == escape_seq(s) + esc_char(c),
    decreases s.len(),
{
    if s.len() == 0 {
        assert(s.push(c)[0] == c);
        assert(s.push(c).drop_first() =~= Seq::<char>::empty());
        assert(escape_seq(s.push(c)) == esc_char(c) + escape_seq(Seq::<char>::empty()));
        assert(esc_char(c) + Seq::<char>::empty() =~= Seq::<char>::empty() + esc_char(c));
        assert(escape_seq(s) == Seq::<char>::empty());
    } else {
        assert(s.push(c)[0] == s[0]);
        assert(s.push(c).drop_first() =~= s.drop_first().push(c));
        lemma_escape_seq_snoc(s.drop_first(), c);
        assert(esc_char(s[0]) + (escape_seq(s.drop_first()) + esc_char(c)) =~= (esc_char(s[0])
            + escape_seq(s.drop_first())) + esc_char(c));
    }
}

/// Reads a written needle back: a backslash must be followed by a quote
/// or a backslash and stands for that character; a bare quote cannot
/// occur, since it would have ended the needle.
pub open spec fn unescape(s: Seq<char>) -> Option<Seq<char>>
    decreases s.len(),
{
    if s.len() == 0 {
        Some(Seq::empty())
    } else if s[0] == '\\' {
        if s.len() >= 2 && (s[1] == '"' || s[1] == '\\') {
            match unescape(s.skip(2)) {
                Some(rest) => Some(seq![s[1]] + rest),
                None => None,
            }
        } else {
            None
        }
    } else if s[0] == '"' {
        None
    } else {
        match unescape(s.drop_first()) {
            Some(rest) => Some(seq![s[0]] + rest),
            None => None,
        }
    }
}

/// Reading a written needle back gives the needle: every needle, with
/// any characters, survives the trip through its written form.
pub proof fn lemma_unescape_escape(p: Seq<char>)
    ensures
        unescape(escape_seq(p)) == Some(p),
    decreases p.len(),
{
    if p.len() > 0 {
        lemma_unescape_escape(p.drop_first());
        let e = escape_seq(p);
        if p[0] == '"' || p[0] == '\\' {
            assert(e[0] == '\\');
            assert(e[1] == p[0]);
            assert(e.skip(2) =~= escape_seq(p.drop_first()));
            assert(seq![p[0]] + p.drop_first() =~= p);
        } else {
            assert(e[0] == p[0]);
            assert(e.drop_first() =~= escape_seq(p.drop_first()));
            assert(seq![p[0]] + p.drop_first() =~= p);
        }
    }
}

/// The JSON spelling of a strategy, as the store keeps it: quotes and
/// backslashes in a url-param needle are escaped with a backslash.
pub open spec fn strategy_json(v: StrategyView) -> Seq<char> {
    match v {
        StrategyView::Weight(w) => "{\"Weight\":"@ + dec_rep(w as nat) + "}"@,
        StrategyView::UrlParam(p) => "{\"UrlParam\":\""@ + escape_seq(p) + "\"}"@,
    }
}

/// What the strategy parser accepts: exactly the spellings that
/// `strategy_json` produces.
pub open spec fn parse_strategy_spec(s: Seq<char>) -> Option<StrategyView> {
    let wp = "{\"Weight\":"@;
    let up = "{\"UrlParam\":\""@;
    if wp.is_prefix_of(s) && s.len() >= wp.len() + 2 && s.last() == '}' && all_digits(
        s.subrange(wp.len() as int, s.len() - 1),
    ) && dec_value(s.subrange(wp.len() as int, s.len() - 1)) <= u16::MAX {
        Some(StrategyView::Weight(dec_value(s.subrange(wp.len() as int, s.len() - 1)) as u16))
    } else if up.is_prefix_of(s) && s.len() >= up.len() + 2 && s[s.len() - 2] == '"' && s.last()
        == '}' {
        match unescape(s.subrange(up.len() as int, s.len() - 2)) {
            Some(p) => Some(StrategyView::UrlParam(p)),
            None => None,
        }
    } else {
        None
    }
}

/// No text can carry both opening brackets: they disagree at one position.
proof fn lemma_prefixes_disjoint(s: Seq<char>)
    ensures
        !("{\"Weight\":"@.is_prefix_of(s) && "{\"UrlParam\":\""@.is_prefix_of(s)),
{
    reveal_strlit("{\"Weight\":");
    reveal_strlit("{\"UrlParam\":\"");
    let wp = "{\"Weight\":"@;
    let up = "{\"UrlParam\":\""@;
    if wp.is_prefix_of(s) && up.is_prefix_of(s) {
        assert(wp == s.subrange(0, wp.len() as int));
        assert(up == s.subrange(0, up.len() as int));
        assert(s.subrange(0, wp.len() as int)[2] == s[2]);
        assert(s.subrange(0, up.len() as int)[2] == s[2]);
        assert(false);
    }
}

/// Writes a strategy in its JSON spelling.
pub fn strategy_to_json(s: &Strategy) -> (r: String)
    ensures
        r@ == strategy_json(s@),
{
    match s {
        Strategy::Weight(w) => {
            let mut out = String::from_str("{\"Weight\":");
            let digits = format_u64(*w as u64);
            out.append(digits.as_str());
            out.append("}");
            proof {
                assert(out@ =~= strategy_json(s@));
            }
            out
        },
        Strategy::UrlParam(p) => {
            let mut out = String::from_str("{\"UrlParam\":\"");
            let p_len = p.as_str().unicode_len();
            let mut i: usize = 0;
            proof {
                assert(escape_seq(p@.subrange(0, 0)) =~= Seq::<char>::empty());
                assert(out@ =~= "{\"UrlParam\":\""@ + escape_seq(p@.subrange(0, 0)));
            }
            while i < p_len
                invariant
                    p_len == p@.len(),
                    i <= p_len,
                    out@ == "{\"UrlParam\":\""@ + escape_seq(p@.subrange(0, i as int)),
                decreases p_len - i,
            {
                let c = p.as_str().get_char(i);
                proof {
                    lemma_escape_seq_snoc(p@.subrange(0, i as int), c);
                    assert(p@.subrange(0, i as int).push(c) =~= p@.subrange(0, i + 1));
                }
                if c == '"' {
                    out.append("\\\"");
                    proof {
                        reveal_strlit("\\\"");
                        assert("\\\""@ =~= esc_char(c));
                        assert(out@ =~= "{\"UrlParam\":\""@ + escape_seq(p@.subrange(0, i + 1)));
                    }
                } else if c == '\\' {
                    out.append("\\\\");
                    proof {
                        reveal_strlit("\\\\");
                        assert("\\\\"@ =~= esc_char(c));
                        assert(out@ =~= "{\"UrlParam\":\""@ + escape_seq(p@.subrange(0, i + 1)));
                    }
                } else {
                    let piece = p.as_str().substring_char(i, i + 1);
                    out.append(piece);
                    proof {
                        assert(piece@ =~= esc_char(c));
                        assert(out@ =~= "{\"UrlParam\":\""@ + escape_seq(p@.subrange(0, i + 1)));
                    }
                }
                i += 1;
            }
            out.append("\"}");
            proof {
                assert(p@.subrange(0, p@.len() as int) =~= p@);
                assert(out@ =~= strategy_json(s@));
            }
            out
        },
    }
}

/// Reads a strategy back from its JSON spelling. Returns `None` exactly
/// when the text is not a spelling that `strategy_json` produces.
pub fn strategy_from_json(s: &str) -> (r: Option<Strategy>)
    ensures
        match r {
            Some(st) => parse_strategy_spec(s@) == Some(st@),
            None => parse_strategy_spec(s@) is None,
        },
{
    let len = s.unicode_len();
    if starts_with(s, "{\"Weight\":") {
        proof {
            lemma_prefixes_disjoint(s@);
        }
        let wp_len = "{\"Weight\":".unicode_len();
        proof {
            reveal_strlit("{\"Weight\":");
        }
        if len < wp_len + 2 {
            return None;
        }
        if s.get_char(len - 1) != '}' {
            return None;
        }
        let mid = s.substring_char(wp_len, len - 1);
        proof {
            assert(mid@ =~= s@.subrange("{\"Weight\":"@.len() as int, s@.len() - 1));
        }
        match parse_u64(mid) {
            Some(v) => {
                if v <= 65535 {
                    Some(Strategy::Weight(v as u16))
                } else {
                    None
                }
            },
            None => {
                proof {
                    if mid@.len() == 0 || !all_digits(mid@) {
                    } else {
                        assert(dec_value(mid@) > u64::MAX >= u16::MAX);
                    }
                }
                None
            },
        }
    } else if starts_with(s, "{\"UrlParam\":\"") {
        proof {
            lemma_prefixes_disjoint(s@);
        }
        let up_len = "{\"UrlParam\":\"".unicode_len();
        proof {
            reveal_strlit("{\"UrlParam\":\"");
        }
        if len < up_len + 2 {
            return None;
        }
        if s.get_char(len - 2) != '"' || s.get_char(len - 1) != '}' {
            return None;
        }
        let mid = s.substring_char(up_len, len - 2);
        proof {
            assert(mid@ =~= s@.subrange("{\"UrlParam\":\""@.len() as int, s@.len() - 2));
        }
        let m_len = len - 2 - up_len;
        let mut out = String::new();
        let mut i: usize = 0;
        proof {
            assert(mid@.skip(0) =~= mid@);
            assert(out@ + mid@ =~= mid@);
        }
        while i < m_len
            invariant
                m_len == mid@.len(),
                i <= m_len,
                "{\"UrlParam\":\""@.is_prefix_of(s@),
                !("{\"Weight\":"@.is_prefix_of(s@)),
                s@.len() >= "{\"UrlParam\":\""@.len() + 2,
                s@[s@.len() - 2] == '"',
                s@.last() == '}',
                mid@ == s@.subrange("{\"UrlParam\":\""@.len() as int, s@.len() - 2),
                match unescape(mid@.skip(i as int)) {
                    Some(t) => unescape(mid@) == Some(out@ + t),
                    None => unescape(mid@) is None,
                },
            decreases m_len - i,
        {
            let c = mid.get_char(i);
            if c == '\\' {
                if i + 1 >= m_len {
                    proof {
                        assert(mid@.skip(i as int)[0] == '\\');
                        assert(mid@.skip(i as int).len() < 2);
                        assert(unescape(mid@.skip(i as int)) is None);
                    }
                    return None;
                }
                let c2 = mid.get_char(i + 1);
                proof {
                    assert(mid@.skip(i as int)[0] == '\\');
                    assert(mid@.skip(i as int)[1] == c2);
                }
                if c2 != '"' && c2 != '\\' {
                    proof {
                        assert(unescape(mid@.skip(i as int)) is None);
                    }
                    return None;
                }
                let piece = mid.substring_char(i + 1, i + 2);
                let ghost prev_out = out@;
                out.append(piece);
                proof {
                    assert(piece@ =~= seq![c2]);
                    assert(mid@.skip(i as int).skip(2) =~= mid@.skip(i + 2));
                    match unescape(mid@.skip(i + 2)) {
                        Some(t) => {
                            assert(unescape(mid@.skip(i as int)) == Some(seq![c2] + t));
                            assert(prev_out + (seq![c2] + t) =~= out@ + t);
                        },
                        None => {},
                    }
                }
                i += 2;
            } else if c == '"' {
                proof {
                    assert(mid@.skip(i as int)[0] == '"');
                    assert(unescape(mid@.skip(i as int)) is None);
                }
                return None;
            } else {
                let piece = mid.substring_char(i, i + 1);
                let ghost prev_out = out@;
                out.append(piece);
                proof {
                    assert(piece@ =~= seq![c]);
                    assert(mid@.skip(i as int).drop_first() =~= mid@.skip(i + 1));
                    match unescape(mid@.skip(i + 1)) {
                        Some(t) => {
                            assert(unescape(mid@.skip(i as int)) == Some(seq![c] + t));
                            assert(prev_out + (seq![c] + t) =~= out@ + t);
                        },
                        None => {},
                    }
                }
                i += 1;
            }
        }
        proof {
            assert(mid@.skip(m_len as int) =~= Seq::<char>::empty());
            assert(unescape(mid@) == Some(out@ + Seq::<char>::empty()));
            assert(out@ + Seq::<char>::empty() =~= out@);
        }
        Some(Strategy::UrlParam(out))
    } else {
        None
    }
}

/// Reading a strategy's JSON spelling back gives the same strategy, for
/// every strategy: a url-param needle's quotes and backslashes go through
/// their escaped form.
pub proof fn lemma_strategy_json_round_trip(v: StrategyView)
    ensures
        parse_strategy_spec(strategy_json(v)) == Some(v),
{
    reveal_strlit("{\"Weight\":");
    reveal_strlit("{\"UrlParam\":\"");
    reveal_strlit("}");
    reveal_strlit("\"}");
    let wp = "{\"Weight\":"@;
    let up = "{\"UrlParam\":\""@;
    let s = strategy_json(v);
    lemma_prefixes_disjoint(s);
    match v {
        StrategyView::Weight(w) => {
            lemma_dec_rep_value(w as nat);
            let d = dec_rep(w as nat);
            assert(s =~= wp + d + "}"@);
            assert(s.len() == wp.len() + d.len() + 1);
            assert(wp.is_prefix_of(s)) by {
                assert(wp =~= s.subrange(0, wp.len() as int));
            }
            assert(s.last() == '}');
            assert(s.subrange(wp.len() as int, s.len() - 1) =~= d);
            assert(dec_value(d) == w as nat);
        },
        StrategyView::UrlParam(p) => {
            lemma_unescape_escape(p);
            let e = escape_seq(p);
            assert(s =~= up + e + "\"}"@);
            assert(s.len() == up.len() + e.len() + 2);
            assert(up.is_prefix_of(s)) by {
                assert(up =~= s.subrange(0, up.len() as int));
            }
            assert(s[s.len() - 2] == '"');
            assert(s.last() == '}');
            assert(s.subrange(up.len() as int, s.len() - 2) =~= e);
        },
    }
}

} // verus!

//! The pattern language: a linear, non-nested substitution over configured
//! strings. Text outside `{...}` spans is copied verbatim; an unterminated
//! `{` is literal text; a recognized token resolves against the current
//! episode, channel and tag context, falling back to one canonical
//! placeholder when its value is absent; an unrecognized token is a fatal
//! configuration error.

use vstd::prelude::*;

use crate::episode::EpisodeAttributes;
use crate::feed::{text_lookup, FieldValue, RawPodcast};
use crate::text::{
    chars_eq_str, chars_start_with_str, chars_to_string, dec_rep_signed, find_from, find_in_chars,
    i64_to_dec_chars, lemma_find_from_props, seq_starts_with, str_to_chars,
};
use crate::time::{format_from, format_ts, ts_in_civil_range, ts_in_civil_range_x};
use crate::ConfigError;

verus! {

/// The fixed program identifier the `appname` token resolves to.
pub open spec fn app_name() -> Seq<char> {
    "podsync"@
}

/// The canonical placeholder marking a value not found in the context.
pub open spec fn placeholder_value() -> Seq<char> {
    "missing"@
}

/// The evaluation context of one episode: subscription name, resolved home
/// directory when known, the channel record, the episode's attributes, and
/// the written tag set when tagging has run.
pub struct EvalCtx<'a> {
    pub podname: &'a str,
    pub home: Option<&'a str>,
    pub channel: &'a RawPodcast,
    pub episode: &'a EpisodeAttributes,
    pub tags: Option<&'a Vec<(String, FieldValue)>>,
}

/// Whether a token belongs to the recognized set; this depends on the token
/// text alone, never on the context.
pub open spec fn token_known(tok: Seq<char>) -> bool {
    ||| tok == "guid"@
    ||| tok == "url"@
    ||| tok == "podname"@
    ||| tok == "appname"@
    ||| tok == "home"@
    ||| tok == "pubdate::unix"@
    ||| seq_starts_with(tok, "pubdate::"@)
    ||| seq_starts_with(tok, "id3::"@)
    ||| seq_starts_with(tok, "rss::episode::"@)
    ||| seq_starts_with(tok, "rss::channel::"@)
}

/// What a recognized token resolves to under a context; `None` exactly for
/// an unrecognized token.
pub open spec fn resolve_token_spec(tok: Seq<char>, ctx: EvalCtx<'_>) -> Option<Seq<char>> {
    if tok == "guid"@ {
        Some(ctx.episode.guid@)
    } else if tok == "url"@ {
        Some(ctx.episode.url@)
    } else if tok == "podname"@ {
        Some(ctx.podname@)
    } else if tok == "appname"@ {
        Some(app_name())
    } else if tok == "home"@ {
        match ctx.home {
            Some(h) => Some(h@),
            None => Some(placeholder_value()),
        }
    } else if tok == "pubdate::unix"@ {
        Some(dec_rep_signed(ctx.episode.published as int))
    } else if seq_starts_with(tok, "pubdate::"@) {
        if ts_in_civil_range(ctx.episode.published as int) {
            Some(format_from(tok.skip("pubdate::"@.len() as int), 0, ctx.episode.published as int))
        } else {
            Some(placeholder_value())
        }
    } else if seq_starts_with(tok, "id3::"@) {
        match ctx.tags {
            Some(tags) => match text_lookup(tags@, tok.skip("id3::"@.len() as int)) {
                Some(v) => Some(v),
                None => Some(placeholder_value()),
            },
            None => Some(placeholder_value()),
        }
    } else if seq_starts_with(tok, "rss::episode::"@) {
        match text_lookup(ctx.episode.raw.entries@, tok.skip("rss::episode::"@.len() as int)) {
            Some(v) => Some(v),
            None => Some(placeholder_value()),
        }
    } else if seq_starts_with(tok, "rss::channel::"@) {
        match text_lookup(ctx.channel.entries@, tok.skip("rss::channel::"@.len() as int)) {
            Some(v) => Some(v),
            None => Some(placeholder_value()),
        }
    } else {
        None
    }
}

/// A recognized token always resolves, an unrecognized one never does.
pub proof fn lemma_resolve_known(tok: Seq<char>, ctx: EvalCtx<'_>)
    ensures
        resolve_token_spec(tok, ctx) is Some <==> token_known(tok),
{
}

/// The evaluation of the pattern text from position `i` on: literal text
/// copied, tokens resolved; `None` exactly when an unrecognized token
/// occurs.
pub open spec fn eval_from(pattern: Seq<char>, i: int, ctx: EvalCtx<'_>) -> Option<Seq<char>>
    decreases pattern.len() - i,
    via eval_from_decreases
{
    if i < 0 || i >= pattern.len() {
        Some(Seq::empty())
    } else if pattern[i] == '{' {
        let close = find_from(pattern, i + 1, '}');
        if close >= pattern.len() {
            Some(pattern.skip(i))
        } else {
            match resolve_token_spec(pattern.subrange(i + 1, close), ctx) {
                None => None,
                Some(v) => match eval_from(pattern, close + 1, ctx) {
                    None => None,
                    Some(rest) => Some(v.add(rest)),
                },
            }
        }
    } else {
        match eval_from(pattern, i + 1, ctx) {
            None => None,
            Some(rest) => Some(seq![pattern[i]].add(rest)),
        }
    }
}

#[via_fn]
proof fn eval_from_decreases(pattern: Seq<char>, i: int, ctx: EvalCtx<'_>) {
    if 0 <= i < pattern.len() {
        lemma_find_from_props(pattern, i + 1, '}');
    }
}

/// Whether the pattern text from `i` on holds only recognized tokens.
pub open spec fn pattern_wf_from(pattern: Seq<char>, i: int) -> bool
    decreases pattern.len() - i,
    via pattern_wf_decreases
{
    if i < 0 || i >= pattern.len() {
        true
    } else if pattern[i] == '{' {
        let close = find_from(pattern, i + 1, '}');
        if close >= pattern.len() {
            true
        } else {
            token_known(pattern.subrange(i + 1, close)) && pattern_wf_from(pattern, close + 1)
        }
    } else {
        pattern_wf_from(pattern, i + 1)
    }
}

#[via_fn]
proof fn pattern_wf_decreases(pattern: Seq<char>, i: int) {
    if 0 <= i < pattern.len() {
        lemma_find_from_props(pattern, i + 1, '}');
    }
}

/// A pattern holding only recognized tokens evaluates under every context;
/// one holding an unrecognized token evaluates under none.
pub proof fn lemma_wf_evaluates(pattern: Seq<char>, i: int, ctx: EvalCtx<'_>)
    ensures
        pattern_wf_from(pattern, i) <==> eval_from(pattern, i, ctx) is Some,
    decreases pattern.len() - i,
{
    if 0 <= i < pattern.len() {
        if pattern[i] == '{' {
            lemma_find_from_props(pattern, i + 1, '}');
            let close = find_from(pattern, i + 1, '}');
            if close < pattern.len() {
                lemma_wf_evaluates(pattern, close + 1, ctx);
            }
        } else {
            lemma_wf_evaluates(pattern, i + 1, ctx);
        }
    }
}

/// Resolves one token, as `resolve_token_spec` describes.
fn resolve_token(tok: &Vec<char>, ctx: &EvalCtx<'_>) -> (r: Option<Vec<char>>)
    ensures
        match r {
            Some(v) => resolve_token_spec(tok@, *ctx) == Some(v@),
            None => resolve_token_spec(tok@, *ctx) is None,
        },
{
    if chars_eq_str(tok.as_slice(), "guid") {
        Some(str_to_chars(ctx.episode.guid.as_str()))
    } else if chars_eq_str(tok.as_slice(), "url") {
        Some(str_to_chars(ctx.episode.url.as_str()))
    } else if chars_eq_str(tok.as_slice(), "podname") {
        Some(str_to_chars(ctx.podname))
    } else if chars_eq_str(tok.as_slice(), "appname") {
        Some(str_to_chars("podsync"))
    } else if chars_eq_str(tok.as_slice(), "home") {
        match ctx.home {
            Some(h) => Some(str_to_chars(h)),
            None => Some(str_to_chars("missing")),
        }
    } else if chars_eq_str(tok.as_slice(), "pubdate::unix") {
        Some(i64_to_dec_chars(ctx.episode.published))
    } else if chars_start_with_str(tok.as_slice(), "pubdate::") {
        if ts_in_civil_range_x(ctx.episode.published) {
            let fmt = copy_from(tok, "pubdate::".unicode_len());
            Some(format_ts(&fmt, ctx.episode.published))
        } else {
            Some(str_to_chars("missing"))
        }
    } else if chars_start_with_str(tok.as_slice(), "id3::") {
        match ctx.tags {
            Some(tags) => {
                let key = copy_from(tok, "id3::".unicode_len());
                let key_s = chars_to_string(key.as_slice());
                match crate::feed::text_lookup_of(tags, key_s.as_str()) {
                    Some(v) => Some(str_to_chars(v)),
                    None => Some(str_to_chars("missing")),
                }
            },
            None => Some(str_to_chars("missing")),
        }
    } else if chars_start_with_str(tok.as_slice(), "rss::episode::") {
        let key = copy_from(tok, "rss::episode::".unicode_len());
        let key_s = chars_to_string(key.as_slice());
        match crate::feed::text_lookup_of(&ctx.episode.raw.entries, key_s.as_str()) {
            Some(v) => Some(str_to_chars(v)),
            None => Some(str_to_chars("missing")),
        }
    } else if chars_start_with_str(tok.as_slice(), "rss::channel::") {
        let key = copy_from(tok, "rss::channel::".unicode_len());
        let key_s = chars_to_string(key.as_slice());
        match crate::feed::text_lookup_of(&ctx.channel.entries, key_s.as_str()) {
            Some(v) => Some(str_to_chars(v)),
            None => Some(str_to_chars("missing")),
        }
    } else {
        None
    }
}

/// Copies the characters of `v` from position `from` on.
fn copy_from(v: &Vec<char>, from: usize) -> (r: Vec<char>)
    requires
        from <= v@.len(),
    ensures
        r@ == v@.skip(from as int),
{
    let mut r: Vec<char> = Vec::new();
    let mut i: usize = from;
    while i < v.len()
        invariant
            from <= i <= v@.len(),
            r@ == v@.subrange(from as int, i as int),
        decreases v@.len() - i,
    {
        let c = v[i];
        r.push(c);
        i = i + 1;
        proof {
            assert(r@ =~= v@.subrange(from as int, i as int));
        }
    }
    proof {
        assert(v@.subrange(from as int, v@.len() as int) =~= v@.skip(from as int));
    }
    r
}

/// Evaluates a pattern under a context, as `eval_from` describes: the
/// substituted text, or the unrecognized token as a fatal configuration
/// error.
pub fn evaluate(pattern: &str, ctx: &EvalCtx<'_>) -> (r: Result<String, ConfigError>)
    ensures
        match r {
            Ok(s) => eval_from(pattern@, 0, *ctx) == Some(s@),
            Err(_) => eval_from(pattern@, 0, *ctx) is None,
        },
{
    let cs = str_to_chars(pattern);
    let mut out: Vec<char> = Vec::new();
    let mut i: usize = 0;
    proof {
        assert(match eval_from(cs@, 0, *ctx) {
            Some(rest) => Some(out@.add(rest)) == eval_from(cs@, 0, *ctx),
            None => true,
        });
    }
    while i < cs.len()
        invariant
            cs@ == pattern@,
            i <= cs@.len(),
            eval_from(cs@, 0, *ctx) == (match eval_from(cs@, i as int, *ctx) {
                Some(rest) => Some(out@.add(rest)),
                None => None::<Seq<char>>,
            }),
        decreases cs@.len() - i,
    {
        let ghost pre = out@;
        let c = cs[i];
        if c == '{' {
            proof {
                lemma_find_from_props(cs@, i + 1, '}');
            }
            let close = find_in_chars(&cs, i + 1, '}');
            if close >= cs.len() {
                let mut k = i;
                while k < cs.len()
                    invariant
                        i <= k <= cs@.len(),
                        out@ == pre.add(cs@.subrange(i as int, k as int)),
                    decreases cs@.len() - k,
                {
                    let c2 = cs[k];
                    out.push(c2);
                    k = k + 1;
                    proof {
                        assert(out@ =~= pre.add(cs@.subrange(i as int, k as int)));
                    }
                }
                proof {
                    assert(cs@.subrange(i as int, cs@.len() as int) =~= cs@.skip(i as int));
                }
                i = cs.len();
            } else {
                let tok = copy_range(&cs, i + 1, close);
                match resolve_token(&tok, ctx) {
                    Some(v) => {
                        let mut k: usize = 0;
                        while k < v.len()
                            invariant
                                k <= v@.len(),
                                out@ == pre.add(v@.take(k as int)),
                            decreases v@.len() - k,
                        {
                            let c2 = v[k];
                            out.push(c2);
                            k = k + 1;
                            proof {
                                assert(out@ =~= pre.add(v@.take(k as int)));
                            }
                        }
                        proof {
                            assert(v@.take(v@.len() as int) =~= v@);
                        }
                        i = close + 1;
                    },
                    None => {
                        let tok_s = chars_to_string(tok.as_slice());
                        return Err(ConfigError::UnknownToken(tok_s));
                    },
                }
            }
        } else {
            out.push(c);
            i = i + 1;
            proof {
                assert(out@ =~= pre.push(c));
                assert(pre.add(seq![c].add(match eval_from(cs@, i as int, *ctx) {
                    Some(rest) => rest,
                    None => Seq::empty(),
                })) =~= out@.add(match eval_from(cs@, i as int, *ctx) {
                    Some(rest) => rest,
                    None => Seq::empty(),
                }));
            }
        }
    }
    proof {
        assert(out@.add(Seq::<char>::empty()) =~= out@);
    }
    Ok(chars_to_string(out.as_slice()))
}

/// Copies the characters of `v` between `from` and `to`.
fn copy_range(v: &Vec<char>, from: usize, to: usize) -> (r: Vec<char>)
    requires
        from <= to <= v@.len(),
    ensures
        r@ == v@.subrange(from as int, to as int),
{
    let mut r: Vec<char> = Vec::new();
    let mut i: usize = from;
    while i < to
        invariant
            from <= i <= to <= v@.len(),
            r@ == v@.subrange(from as int, i as int),
        decreases to - i,
    {
        let c = v[i];
        r.push(c);
        i = i + 1;
        proof {
            assert(r@ =~= v@.subrange(from as int, i as int));
        }
    }
    r
}

/// Checks a configured pattern against the recognized token set, as
/// `pattern_wf_from` describes: the unrecognized token comes back as the
/// fatal configuration error, before any evaluation is attempted.
pub fn validate_pattern(pattern: &str) -> (r: Result<(), ConfigError>)
    ensures
        r is Ok <==> pattern_wf_from(pattern@, 0),
{
    let cs = str_to_chars(pattern);
    let mut i: usize = 0;
    while i < cs.len()
        invariant
            cs@ == pattern@,
            i <= cs@.len(),
            pattern_wf_from(cs@, 0) == pattern_wf_from(cs@, i as int),
        decreases cs@.len() - i,
    {
        let c = cs[i];
        if c == '{' {
            proof {
                lemma_find_from_props(cs@, i + 1, '}');
            }
            let close = find_in_chars(&cs, i + 1, '}');
            if close >= cs.len() {
                i = cs.len();
            } else {
                let tok = copy_range(&cs, i + 1, close);
                if token_known_x(&tok) {
                    i = close + 1;
                } else {
                    let tok_s = chars_to_string(tok.as_slice());
                    return Err(ConfigError::UnknownToken(tok_s));
                }
            }
        } else {
            i = i + 1;
        }
    }
    Ok(())
}

/// Decides membership in the recognized token set.
fn token_known_x(tok: &Vec<char>) -> (r: bool)
    ensures
        r == token_known(tok@),
{
    chars_eq_str(tok.as_slice(), "guid") || chars_eq_str(tok.as_slice(), "url") || chars_eq_str(
        tok.as_slice(),
        "podname",
    ) || chars_eq_str(tok.as_slice(), "appname") || chars_eq_str(tok.as_slice(), "home")
        || chars_eq_str(tok.as_slice(), "pubdate::unix") || chars_start_with_str(
        tok.as_slice(),
        "pubdate::",
    ) || chars_start_with_str(tok.as_slice(), "id3::") || chars_start_with_str(
        tok.as_slice(),
        "rss::episode::",
    ) || chars_start_with_str(tok.as_slice(), "rss::channel::")
}

} // verus!

//! The line parser: splitting text into lines, classifying each line, and
//! collecting the tokens.

use vstd::prelude::*;
use crate::text::{
    all_space, all_ws, chars_of, find_char, first_index, lemma_first_index, skip_space, string_of,
    trim_start,
};
use crate::token::{tokens_view, EnvToken, ErrorModel, ParseConfig, ParseError, TokenModel};

verus! {

/// The pieces of `s` between `'\n'` characters: one more than the number of
/// `'\n'` in `s`, the last one possibly empty.
pub open spec fn pieces(s: Seq<char>) -> Seq<Seq<char>>
    decreases s.len(),
{
    if s.len() == 0 {
        seq![Seq::empty()]
    } else {
        let p = pieces(s.drop_last());
        if s.last() == '\n' {
            p.push(Seq::empty())
        } else {
            p.update(p.len() - 1, p.last().push(s.last()))
        }
    }
}

/// A line ended by `"\r\n"` loses its `'\r'`.
pub open spec fn strip_cr(l: Seq<char>) -> Seq<char> {
    if l.len() > 0 && l.last() == '\r' {
        l.drop_last()
    } else {
        l
    }
}

/// The lines of `s`: split at `'\n'` or `"\r\n"`, where a final line ending
/// adds no empty line, and a final unterminated line keeps a trailing `'\r'`.
pub open spec fn lines(s: Seq<char>) -> Seq<Seq<char>> {
    let p = pieces(s);
    let done = p.drop_last().map_values(|l: Seq<char>| strip_cr(l));
    if p.last().len() == 0 {
        done
    } else {
        done.push(p.last())
    }
}

/// The lines of the characters `v`, each as a vector of characters.
fn split_lines(v: &Vec<char>) -> (r: Vec<Vec<char>>)
    ensures
        r.len() == lines(v@).len(),
        forall|k: int| 0 <= k < r.len() ==> (#[trigger] r[k])@ == lines(v@)[k],
{
    let mut out: Vec<Vec<char>> = Vec::new();
    let mut cur: Vec<char> = Vec::new();
    let mut i: usize = 0;
    while i < v.len()
        invariant
            i <= v.len(),
            pieces(v@.take(i as int)).len() == out.len() + 1,
            pieces(v@.take(i as int)).last() == cur@,
            forall|k: int|
                0 <= k < out.len() ==> (#[trigger] out[k])@ == strip_cr(
                    pieces(v@.take(i as int))[k],
                ),
        decreases v.len() - i,
    {
        let ghost p = pieces(v@.take(i as int));
        let c = v[i];
        assert(v@.take(i + 1).drop_last() == v@.take(i as int));
        assert(v@.take(i + 1).last() == c);
        if c == '\n' {
            let mut line = cur;
            if line.len() > 0 && line[line.len() - 1] == '\r' {
                line.pop();
            }
            out.push(line);
            cur = Vec::new();
        } else {
            cur.push(c);
        }
        proof {
            let q = pieces(v@.take(i + 1));
            assert forall|k: int| 0 <= k < out.len() implies (#[trigger] out[k])@ == strip_cr(q[k]) by {
                if k < out.len() - 1 || c != '\n' {
                    assert(q[k] == p[k]);
                }
            }
        }
        i = i + 1;
    }
    proof {
        let p = pieces(v@.take(i as int));
        assert(v@.take(i as int) == v@);
        assert(p.drop_last().map_values(|l: Seq<char>| strip_cr(l)).len() == out.len());
    }
    if cur.len() > 0 {
        out.push(cur);
    }
    proof {
        let p = pieces(v@);
        let done = p.drop_last().map_values(|l: Seq<char>| strip_cr(l));
        assert forall|k: int| 0 <= k < out.len() implies (#[trigger] out[k])@ == lines(v@)[k] by {
            if k < done.len() {
                assert(done[k] == strip_cr(p[k]));
            }
        }
    }
    out
}

/// A comment line: its first character that is not white space is `#`.
pub open spec fn is_comment(l: Seq<char>) -> bool {
    trim_start(l).len() > 0 && trim_start(l)[0] == '#'
}

/// The text of a comment line: what follows its first `#`, without leading
/// white space.
pub open spec fn comment_text(l: Seq<char>) -> Seq<char> {
    trim_start(l.skip(first_index(l, '#') + 1))
}

/// The key of a pair line: what precedes its first `=`.
pub open spec fn pair_key(l: Seq<char>) -> Seq<char> {
    l.take(first_index(l, '='))
}

/// The value of a pair line: what follows its first `=`.
pub open spec fn pair_value(l: Seq<char>) -> Seq<char> {
    l.skip(first_index(l, '=') + 1)
}

/// A malformed line: not a comment, without `=`, and not blank.
pub open spec fn is_invalid(l: Seq<char>) -> bool {
    !is_comment(l) && !l.contains('=') && !all_ws(l)
}

/// The tokens that one well-formed line yields under `config`: none or one.
pub open spec fn line_tokens(l: Seq<char>, config: ParseConfig) -> Seq<TokenModel> {
    if is_comment(l) {
        if config.preserve_comments {
            seq![TokenModel::Comment(comment_text(l))]
        } else {
            seq![]
        }
    } else if l.contains('=') {
        seq![TokenModel::Pair(pair_key(l), pair_value(l))]
    } else if config.preserve_whitespace {
        seq![TokenModel::Blank]
    } else {
        seq![]
    }
}

/// The tokens of the lines `ls`, in order.
pub open spec fn tokens_of(ls: Seq<Seq<char>>, config: ParseConfig) -> Seq<TokenModel>
    decreases ls.len(),
{
    if ls.len() == 0 {
        seq![]
    } else {
        tokens_of(ls.drop_last(), config) + line_tokens(ls.last(), config)
    }
}

/// `i` is the index of the first malformed line of `ls`.
pub open spec fn is_first_invalid(ls: Seq<Seq<char>>, i: int) -> bool {
    &&& 0 <= i < ls.len()
    &&& is_invalid(ls[i])
    &&& forall|j: int| 0 <= j < i ==> !is_invalid(#[trigger] ls[j])
}

/// What parsing `s` under `config` yields.
pub open spec fn parse_result(s: Seq<char>, config: ParseConfig) -> Result<
    Seq<TokenModel>,
    ErrorModel,
> {
    let ls = lines(s);
    if all_ws(s) {
        Err(ErrorModel::Empty)
    } else if exists|i: int| is_first_invalid(ls, i) {
        let i = choose|i: int| is_first_invalid(ls, i);
        Err(ErrorModel::InvalidFormat(i, ls[i]))
    } else {
        Ok(tokens_of(ls, config))
    }
}

/// The model of a parse outcome.
pub open spec fn outcome_view(r: Result<Vec<EnvToken>, ParseError>) -> Result<
    Seq<TokenModel>,
    ErrorModel,
> {
    match r {
        Ok(ts) => Ok(tokens_view(ts@)),
        Err(e) => Err(e@),
    }
}

/// The token sequence of an optional token.
pub open spec fn option_tokens(t: Option<EnvToken>) -> Seq<TokenModel> {
    match t {
        Some(t) => seq![t@],
        None => seq![],
    }
}

/// Classifies one line: `None` when it is malformed, else the token it
/// yields under `config`, if any.
fn classify_line(l: &Vec<char>, config: ParseConfig) -> (r: Option<Option<EnvToken>>)
    ensures
        match r {
            None => is_invalid(l@),
            Some(t) => !is_invalid(l@) && option_tokens(t) == line_tokens(l@, config),
        },
{
    let n = l.len();
    assert(l@.subrange(0, n as int) == l@);
    let start = skip_space(l, 0, n);
    if start < n && l[start] == '#' {
        if config.preserve_comments {
            let hash = find_char(l, 0, n, '#');
            match hash {
                Some(h) => {
                    proof { lemma_first_index(l@, '#', h as int); }
                    let t0 = skip_space(l, h + 1, n);
                    assert(l@.skip(h + 1) == l@.subrange(h + 1, n as int));
                    let text = string_of(l, t0, n);
                    Some(Some(EnvToken::Comment(text)))
                },
                None => {
                    assert(l@.subrange(start as int, n as int)[0] == '#');
                    assert(l@[start as int] == '#');
                    Some(None)
                },
            }
        } else {
            Some(None)
        }
    } else {
        match find_char(l, 0, n, '=') {
            Some(e) => {
                proof { lemma_first_index(l@, '=', e as int); }
                let key = string_of(l, 0, e);
                let value = string_of(l, e + 1, n);
                assert(l@.take(e as int) == l@.subrange(0, e as int));
                assert(l@.skip(e + 1) == l@.subrange(e + 1, n as int));
                Some(Some(EnvToken::Pair((key, value))))
            },
            None => {
                if all_space(l, 0, n) {
                    if config.preserve_whitespace {
                        Some(Some(EnvToken::Blank))
                    } else {
                        Some(None)
                    }
                } else {
                    None
                }
            },
        }
    }
}

/// Parses `.env`-style text into tokens, one per kept line, in line order.
///
/// White-space-only text fails with `Empty`; otherwise the first line that is
/// neither blank, a comment nor a `key=value` pair fails with its index and
/// text. Comment and blank lines are kept only where `config` asks for them.
pub fn parse(s: &str, config: ParseConfig) -> (r: Result<Vec<EnvToken>, ParseError>)
    ensures
        outcome_view(r) == parse_result(s@, config),
{
    let v = chars_of(s);
    assert(v@.subrange(0, v.len() as int) == v@);
    if all_space(&v, 0, v.len()) {
        return Err(ParseError::Empty);
    }
    let ls = split_lines(&v);
    let ghost model = lines(s@);
    let mut out: Vec<EnvToken> = Vec::new();
    let mut k: usize = 0;
    while k < ls.len()
        invariant
            k <= ls.len() == model.len(),
            model == lines(s@),
            !all_ws(s@),
            forall|j: int| 0 <= j < ls.len() ==> (#[trigger] ls[j])@ == model[j],
            forall|j: int| 0 <= j < k ==> !is_invalid(#[trigger] model[j]),
            tokens_view(out@) == tokens_of(model.take(k as int), config),
        decreases ls.len() - k,
    {
        assert(model.take(k + 1).drop_last() == model.take(k as int));
        assert(model.take(k + 1).last() == model[k as int]);
        match classify_line(&ls[k], config) {
            None => {
                proof {
                    assert(is_first_invalid(model, k as int));
                    let i = choose|i: int| is_first_invalid(model, i);
                    if i < k {
                        assert(!is_invalid(model[i]));
                    } else if k < i {
                        assert(!is_invalid(model[k as int]));
                    }
                }
                let text = string_of(&ls[k], 0, ls[k].len());
                assert(ls[k as int]@.subrange(0, ls[k as int]@.len() as int) == ls[k as int]@);
                return Err(ParseError::InvalidFormat((k, text)));
            },
            Some(t) => {
                let ghost before = out@;
                match t {
                    Some(tok) => {
                        out.push(tok);
                        assert(tokens_view(out@) == tokens_view(before) + option_tokens(Some(tok)));
                    },
                    None => {
                        assert(tokens_view(out@) == tokens_view(before) + option_tokens(None));
                    },
                }
            },
        }
        k = k + 1;
    }
    assert(model.take(k as int) == model);
    assert(!exists|i: int| is_first_invalid(model, i));
    Ok(out)
}

/// The key/value pairs of the `Pair` tokens of `ts`, in order.
pub open spec fn pair_tokens(ts: Seq<TokenModel>) -> Seq<(Seq<char>, Seq<char>)>
    decreases ts.len(),
{
    if ts.len() == 0 {
        seq![]
    } else {
        match ts.last() {
            TokenModel::Pair(k, v) => pair_tokens(ts.drop_last()).push((k, v)),
            _ => pair_tokens(ts.drop_last()),
        }
    }
}

/// The key/value splits of the pair lines of `ls` (lines that are not
/// comments and hold a `=`), in order.
pub open spec fn pair_lines(ls: Seq<Seq<char>>) -> Seq<(Seq<char>, Seq<char>)>
    decreases ls.len(),
{
    if ls.len() == 0 {
        seq![]
    } else if !is_comment(ls.last()) && ls.last().contains('=') {
        pair_lines(ls.drop_last()).push((pair_key(ls.last()), pair_value(ls.last())))
    } else {
        pair_lines(ls.drop_last())
    }
}

/// The pairs of a concatenation are those of its parts.
pub proof fn lemma_pair_tokens_add(a: Seq<TokenModel>, b: Seq<TokenModel>)
    ensures
        pair_tokens(a + b) == pair_tokens(a) + pair_tokens(b),
    decreases b.len(),
{
    if b.len() == 0 {
        assert(a + b == a);
        assert(pair_tokens(a) + pair_tokens(b) == pair_tokens(a));
    } else {
        assert((a + b).drop_last() == a + b.drop_last());
        assert((a + b).last() == b.last());
        lemma_pair_tokens_add(a, b.drop_last());
        match b.last() {
            TokenModel::Pair(k, v) => {
                assert(pair_tokens(a) + pair_tokens(b.drop_last()).push((k, v)) == (pair_tokens(a)
                    + pair_tokens(b.drop_last())).push((k, v)));
            },
            _ => {},
        }
    }
}

/// Under any configuration, the pairs among the tokens of `ls` are exactly
/// the splits of its pair lines, in order.
pub proof fn lemma_pairs_of_lines(ls: Seq<Seq<char>>, config: ParseConfig)
    ensures
        pair_tokens(tokens_of(ls, config)) == pair_lines(ls),
    decreases ls.len(),
{
    if ls.len() > 0 {
        lemma_pairs_of_lines(ls.drop_last(), config);
        lemma_pair_tokens_add(tokens_of(ls.drop_last(), config), line_tokens(ls.last(), config));
        let lt = line_tokens(ls.last(), config);
        if lt.len() == 1 {
            assert(lt.drop_last() == Seq::<TokenModel>::empty());
            assert(pair_tokens(Seq::<TokenModel>::empty()) == Seq::<(Seq<char>, Seq<char>)>::empty());
        }
        assert(pair_tokens(tokens_of(ls.drop_last(), config)) + pair_tokens(lt) == pair_lines(ls));
    }
}

/// Empty or white-space-only text fails with `Empty`, whatever the
/// configuration.
pub proof fn lemma_blank_text_is_empty(s: Seq<char>, config: ParseConfig)
    requires
        all_ws(s),
    ensures
        parse_result(s, config) == Err::<Seq<TokenModel>, ErrorModel>(ErrorModel::Empty),
{
}

/// In text that is not blank, a malformed line makes the parse fail with
/// `InvalidFormat`, naming a malformed line at or before it by its
/// zero-based index and exact text; the line itself when no earlier line is
/// malformed.
pub proof fn lemma_malformed_line_fails(s: Seq<char>, config: ParseConfig, i: int)
    requires
        !all_ws(s),
        0 <= i < lines(s).len(),
        is_invalid(lines(s)[i]),
    ensures
        parse_result(s, config) is Err,
        ({
            let ls = lines(s);
            exists|j: int|
                #![trigger ls[j]]
                0 <= j <= i && is_invalid(ls[j]) && parse_result(s, config) == Err::<
                    Seq<TokenModel>,
                    ErrorModel,
                >(ErrorModel::InvalidFormat(j, ls[j]))
        }),
        (forall|j: int| 0 <= j < i ==> !is_invalid(#[trigger] lines(s)[j])) ==> parse_result(
            s,
            config,
        ) == Err::<Seq<TokenModel>, ErrorModel>(ErrorModel::InvalidFormat(i, lines(s)[i])),
{
    let ls = lines(s);
    let f = first_invalid_at_most(ls, i);
    let j = choose|j: int| is_first_invalid(ls, j);
    if j < f {
        assert(!is_invalid(ls[j]));
    } else if f < j {
        assert(!is_invalid(ls[f]));
    }
    if forall|j: int| 0 <= j < i ==> !is_invalid(#[trigger] ls[j]) {
        if f < i {
            assert(!is_invalid(ls[f]));
        }
    }
}

/// The first malformed line of `ls`, given one at `i`.
proof fn first_invalid_at_most(ls: Seq<Seq<char>>, i: int) -> (f: int)
    requires
        0 <= i < ls.len(),
        is_invalid(ls[i]),
    ensures
        f <= i,
        is_first_invalid(ls, f),
    decreases i,
{
    if forall|j: int| 0 <= j < i ==> !is_invalid(#[trigger] ls[j]) {
        i
    } else {
        let j = choose|j: int| 0 <= j < i && is_invalid(#[trigger] ls[j]);
        first_invalid_at_most(ls, j)
    }
}

/// Text that is not blank, and whose lines are each blank, a comment or hold
/// a `=`, parses successfully; its `Pair` tokens are its pair lines split at
/// the first `=`, in line order.
pub proof fn lemma_well_formed_text_parses(s: Seq<char>, config: ParseConfig)
    requires
        !all_ws(s),
        forall|i: int| 0 <= i < lines(s).len() ==> !is_invalid(#[trigger] lines(s)[i]),
    ensures
        parse_result(s, config) is Ok,
        pair_tokens(parse_result(s, config)->Ok_0) == pair_lines(lines(s)),
{
    lemma_pairs_of_lines(lines(s), config);
}

/// Whether comments and blank lines are kept changes neither whether a parse
/// fails, nor its error, nor the `Pair` tokens and their order.
pub proof fn lemma_config_keeps_pairs(s: Seq<char>, c1: ParseConfig, c2: ParseConfig)
    ensures
        parse_result(s, c1) is Ok <==> parse_result(s, c2) is Ok,
        parse_result(s, c1) is Err ==> parse_result(s, c1) == parse_result(s, c2),
        parse_result(s, c1) is Ok ==> pair_tokens(parse_result(s, c1)->Ok_0) == pair_tokens(
            parse_result(s, c2)->Ok_0,
        ),
{
    lemma_pairs_of_lines(lines(s), c1);
    lemma_pairs_of_lines(lines(s), c2);
}

} // verus!

//! The renderer: a fixed ConfigMap header followed by one line per token.

use vstd::prelude::*;
use vstd::string::StringExecFns;
use crate::parser::{lines, pieces, strip_cr};
use crate::text::{first_index, is_first, lemma_first_index};
use crate::token::{tokens_view, EnvToken, TokenModel};

verus! {

/// What the renderer needs: the tokens and the manifest's name.
pub struct TemplateConfig {
    pub values: Vec<EnvToken>,
    pub configmap_name: String,
}

/// Declares `std::path::Path` as an opaque type, so that a configuration can
/// carry a destination path; nothing is assumed of its contents.
#[verifier::external_type_specification]
#[verifier::external_body]
pub struct ExPath(std::path::Path);

/// What writing a manifest to a file needs: the rendering input and the
/// destination path.
pub struct WriteConfig<'a> {
    pub template_config: TemplateConfig,
    pub outfile: &'a std::path::Path,
}

/// The manifest header, with `name` as `metadata.name`.
pub open spec fn header(name: Seq<char>) -> Seq<char> {
    "apiVersion: v1\nkind: ConfigMap\nmetadata:\n  name: "@ + name + "\ndata:\n"@
}

/// The rendering of a pair's value: an empty value is written `""`.
pub open spec fn value_text(v: Seq<char>) -> Seq<char> {
    if v.len() == 0 {
        "\"\""@
    } else {
        v
    }
}

/// The line, newline included, that renders one token.
pub open spec fn token_line(t: TokenModel) -> Seq<char> {
    match t {
        TokenModel::Blank => "\n"@,
        TokenModel::Comment(c) => "  # "@ + c + "\n"@,
        TokenModel::Pair(k, v) => "  "@ + k + ": "@ + value_text(v) + "\n"@,
    }
}

/// The lines of the `data:` block, one per token, in order.
pub open spec fn data_block(ts: Seq<TokenModel>) -> Seq<char>
    decreases ts.len(),
{
    if ts.len() == 0 {
        Seq::empty()
    } else {
        data_block(ts.drop_last()) + token_line(ts.last())
    }
}

/// The whole manifest for tokens `ts` and name `name`.
pub open spec fn rendered(ts: Seq<TokenModel>, name: Seq<char>) -> Seq<char> {
    header(name) + data_block(ts)
}

/// Appends the line of one token to `out`.
fn push_token(out: &mut String, t: &EnvToken)
    ensures
        final(out)@ == old(out)@ + token_line(t@),
{
    match t {
        EnvToken::Blank => {
            out.append("\n");
        },
        EnvToken::Comment(c) => {
            out.append("  # ");
            out.append(c.as_str());
            out.append("\n");
        },
        EnvToken::Pair((k, v)) => {
            out.append("  ");
            out.append(k.as_str());
            out.append(": ");
            if v.as_str().is_empty() {
                out.append("\"\"");
            } else {
                out.append(v.as_str());
            }
            out.append("\n");
        },
    }
}

/// Renders the tokens of `config` as a ConfigMap manifest named
/// `config.configmap_name`.
pub fn template(config: TemplateConfig) -> (r: String)
    ensures
        r@ == rendered(tokens_view(config.values@), config.configmap_name@),
{
    let ghost ts = tokens_view(config.values@);
    let mut out = String::new();
    out.append("apiVersion: v1\nkind: ConfigMap\nmetadata:\n  name: ");
    out.append(config.configmap_name.as_str());
    out.append("\ndata:\n");
    let mut i: usize = 0;
    while i < config.values.len()
        invariant
            i <= config.values.len(),
            ts == tokens_view(config.values@),
            out@ == header(config.configmap_name@) + data_block(ts.take(i as int)),
        decreases config.values.len() - i,
    {
        push_token(&mut out, &config.values[i]);
        assert(ts.take(i + 1).drop_last() == ts.take(i as int));
        i = i + 1;
    }
    assert(ts.take(i as int) == ts);
    out
}

/// The data block of a concatenation is the concatenation of the blocks.
pub proof fn lemma_data_block_add(a: Seq<TokenModel>, b: Seq<TokenModel>)
    ensures
        data_block(a + b) == data_block(a) + data_block(b),
    decreases b.len(),
{
    if b.len() == 0 {
        assert(a + b == a);
        assert(data_block(a) + data_block(b) == data_block(a));
    } else {
        assert((a + b).drop_last() == a + b.drop_last());
        assert((a + b).last() == b.last());
        lemma_data_block_add(a, b.drop_last());
        assert(data_block(a) + data_block(b.drop_last()) + token_line(b.last()) == data_block(a)
            + (data_block(b.drop_last()) + token_line(b.last())));
    }
}

/// A pair with an empty value renders as `key: ""`, never as a bare `key: `:
/// the manifest is the header, the lines of the tokens before it, the line
/// `  key: ""`, and the lines of the tokens after it.
pub proof fn lemma_empty_value_quoted(ts: Seq<TokenModel>, name: Seq<char>, i: int)
    requires
        0 <= i < ts.len(),
        ts[i] is Pair,
        ts[i]->Pair_1.len() == 0,
    ensures
        rendered(ts, name) == header(name) + data_block(ts.take(i)) + ("  "@ + ts[i]->Pair_0
            + ": "@ + "\"\""@ + "\n"@) + data_block(ts.skip(i + 1)),
{
    let one = seq![ts[i]];
    assert(ts == ts.take(i) + one + ts.skip(i + 1));
    lemma_data_block_add(ts.take(i) + one, ts.skip(i + 1));
    lemma_data_block_add(ts.take(i), one);
    assert(one.drop_last() == Seq::<TokenModel>::empty());
    assert(data_block(Seq::<TokenModel>::empty()) + token_line(ts[i]) == token_line(ts[i]));
    assert(data_block(one) == token_line(ts[i]));
}

/// The key and value read back from a data line `  key: value`: the text
/// between the indentation and the first `:`, and the text after `": "`.
pub open spec fn read_pair(l: Seq<char>) -> (Seq<char>, Seq<char>) {
    let c = first_index(l, ':');
    (l.subrange(2, c), l.skip(c + 2))
}

/// The key/value pairs read back from the lines of a data block.
pub open spec fn read_pairs(block: Seq<char>) -> Seq<(Seq<char>, Seq<char>)> {
    lines(block).map_values(|l: Seq<char>| read_pair(l))
}

/// A pair that renders on one line and reads back unambiguously: its key
/// holds no `:` and no line break, its value is not empty, holds no line
/// break and does not end in a carriage return.
pub open spec fn is_plain_pair(t: TokenModel) -> bool {
    match t {
        TokenModel::Pair(k, v) => !k.contains(':') && !k.contains('\n') && v.len() > 0
            && !v.contains('\n') && v.last() != '\r',
        _ => false,
    }
}

/// The data line of a pair, without its line break.
pub open spec fn pair_line(t: TokenModel) -> Seq<char> {
    "  "@ + t->Pair_0 + ": "@ + t->Pair_1
}

/// Appending text without a line break extends the last piece.
proof fn lemma_pieces_extend(a: Seq<char>, x: Seq<char>)
    requires
        !x.contains('\n'),
    ensures
        pieces(a).len() >= 1,
        pieces(a + x) == pieces(a).update(pieces(a).len() - 1, pieces(a).last() + x),
    decreases x.len(),
{
    lemma_pieces_len(a);
    if x.len() == 0 {
        assert(a + x == a);
        assert(pieces(a).last() + x == pieces(a).last());
        assert(pieces(a).update(pieces(a).len() - 1, pieces(a).last()) == pieces(a));
    } else {
        let y = x.drop_last();
        let c = x.last();
        assert(!y.contains('\n')) by {
            if y.contains('\n') {
                let j = choose|j: int| 0 <= j < y.len() && y[j] == '\n';
                assert(x[j] == '\n');
            }
        }
        assert(x[x.len() - 1] == c);
        lemma_pieces_extend(a, y);
        assert((a + x).drop_last() == a + y);
        assert((a + x).last() == c);
        assert(pieces(a).last() + y + seq![c] == pieces(a).last() + x);
        assert((pieces(a).last() + y).push(c) == pieces(a).last() + x);
    }
}

/// Text always has at least one piece.
proof fn lemma_pieces_len(a: Seq<char>)
    ensures
        pieces(a).len() >= 1,
    decreases a.len(),
{
    if a.len() > 0 {
        lemma_pieces_len(a.drop_last());
    }
}

/// The pieces of the data block of plain pairs are their lines, then an
/// empty piece.
proof fn lemma_plain_block_pieces(ts: Seq<TokenModel>)
    requires
        forall|i: int| 0 <= i < ts.len() ==> is_plain_pair(#[trigger] ts[i]),
    ensures
        pieces(data_block(ts)) == ts.map_values(|t: TokenModel| pair_line(t)).push(Seq::empty()),
    decreases ts.len(),
{
    reveal_strlit("\n");
    reveal_strlit("  ");
    reveal_strlit(": ");
    if ts.len() == 0 {
        assert(ts.map_values(|t: TokenModel| pair_line(t)) == Seq::<Seq<char>>::empty());
    } else {
        let rest = ts.drop_last();
        let t = ts.last();
        assert(is_plain_pair(ts[ts.len() - 1]));
        lemma_plain_block_pieces(rest);
        let d = data_block(rest);
        let l = pair_line(t);
        assert(!l.contains('\n')) by {
            if l.contains('\n') {
                let j = choose|j: int| 0 <= j < l.len() && l[j] == '\n';
                let kl = t->Pair_0.len();
                if 4 + kl <= j {
                    assert(t->Pair_1[j - 4 - kl] == '\n');
                } else if 2 <= j < 2 + kl {
                    assert(t->Pair_0[j - 2] == '\n');
                }
            }
        }
        lemma_pieces_extend(d, l);
        assert(token_line(t) == l + "\n"@);
        assert(d + token_line(t) == (d + l).push('\n'));
        assert((d + l).push('\n').drop_last() == d + l);
        let m = rest.map_values(|t: TokenModel| pair_line(t));
        assert(m.push(Seq::empty()).update(m.len() as int, Seq::<char>::empty() + l) == m.push(l));
        assert(ts.map_values(|t: TokenModel| pair_line(t)) == m.push(l));
    }
}

/// The line of a plain pair reads back as its key and value.
proof fn lemma_read_pair_line(t: TokenModel)
    requires
        is_plain_pair(t),
    ensures
        read_pair(pair_line(t)) == (t->Pair_0, t->Pair_1),
        strip_cr(pair_line(t)) == pair_line(t),
{
    reveal_strlit("  ");
    reveal_strlit(": ");
    let k = t->Pair_0;
    let l = pair_line(t);
    let c = 2 + k.len() as int;
    assert(l[c] == ':');
    assert forall|j: int| 0 <= j < c implies l[j] != ':' by {
        if j >= 2 {
            assert(l[j] == k[j - 2]);
        }
    }
    assert(is_first(l, ':', c));
    lemma_first_index(l, ':', c);
    assert(l.subrange(2, c) == k);
    assert(l.skip(c + 2) == t->Pair_1);
    assert(l.last() == t->Pair_1.last());
}

/// Rendering pairs whose keys hold no `:` and whose values are non-empty,
/// and reading the `key: value` lines of the data block back, gives the
/// original keys and values in order.
pub proof fn lemma_pairs_read_back(ts: Seq<TokenModel>, name: Seq<char>)
    requires
        forall|i: int| 0 <= i < ts.len() ==> is_plain_pair(#[trigger] ts[i]),
    ensures
        ({
            let back = read_pairs(rendered(ts, name).skip(header(name).len() as int));
            &&& back.len() == ts.len()
            &&& forall|i: int| 0 <= i < ts.len() ==> #[trigger] back[i] == (ts[i]->Pair_0, ts[i]->Pair_1)
        }),
{
    assert(rendered(ts, name).skip(header(name).len() as int) == data_block(ts));
    lemma_plain_block_pieces(ts);
    let m = ts.map_values(|t: TokenModel| pair_line(t));
    let p = pieces(data_block(ts));
    assert(p.drop_last() == m);
    assert forall|i: int| 0 <= i < ts.len() implies strip_cr(#[trigger] m[i]) == m[i] by {
        lemma_read_pair_line(ts[i]);
    }
    assert(lines(data_block(ts)) == m.map_values(|l: Seq<char>| strip_cr(l)));
    let back = read_pairs(data_block(ts));
    assert forall|i: int| 0 <= i < ts.len() implies #[trigger] back[i] == (ts[i]->Pair_0, ts[i]->Pair_1) by {
        lemma_read_pair_line(ts[i]);
        assert(lines(data_block(ts))[i] == m[i]);
    }
}

} // verus!

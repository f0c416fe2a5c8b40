//! Derivation of output identifiers from raw specification names: stripping
//! the vendor type prefix, rewriting the flag-set naming convention, and the
//! positional token diff that shortens enumerant names against their owning
//! enum's name.

use vstd::prelude::*;

use crate::lex::{str_cmp, NameOrder};
use crate::tags::TagSet;

verus! {

/// Whether a raw name begins with the vendor type prefix `Vk`.
pub open spec fn has_type_prefix(s: Seq<char>) -> bool {
    s.len() >= 2 && s.subrange(0, 2) == "Vk"@
}

/// The raw name with every leading vendor type prefix removed.
pub open spec fn stripped_type_name(s: Seq<char>) -> Seq<char>
    decreases s.len(),
{
    if has_type_prefix(s) {
        stripped_type_name(s.skip(2))
    } else {
        s
    }
}

/// The name with each occurrence of the flag-set convention `FlagBits`
/// replaced by `Flags`, scanning left to right without overlap.
pub open spec fn flag_bits_replaced(s: Seq<char>) -> Seq<char>
    decreases s.len(),
{
    if s.len() >= 8 && s.subrange(0, 8) == "FlagBits"@ {
        "Flags"@ + flag_bits_replaced(s.skip(8))
    } else if s.len() > 0 {
        seq![s[0]] + flag_bits_replaced(s.skip(1))
    } else {
        s
    }
}

/// A name split at underscores into tokens; a name without underscores is a
/// single token, and each underscore opens a fresh (possibly empty) token.
pub open spec fn split_tokens(s: Seq<char>) -> Seq<Seq<char>>
    decreases s.len(),
{
    if s.len() == 0 {
        seq![Seq::<char>::empty()]
    } else if s.last() == '_' {
        split_tokens(s.drop_last()).push(Seq::<char>::empty())
    } else {
        let r = split_tokens(s.drop_last());
        r.update(r.len() - 1, r.last().push(s.last()))
    }
}

/// A split always yields at least one token.
pub proof fn lemma_split_tokens_len(s: Seq<char>)
    ensures
        split_tokens(s).len() >= 1,
    decreases s.len(),
{
    if s.len() > 0 {
        lemma_split_tokens_len(s.drop_last());
    }
}

/// Tokens joined with underscores.
pub open spec fn join_tokens(ts: Seq<Seq<char>>) -> Seq<char>
    decreases ts.len(),
{
    if ts.len() == 0 {
        Seq::<char>::empty()
    } else if ts.len() == 1 {
        ts[0]
    } else {
        join_tokens(ts.drop_last()) + "_"@ + ts.last()
    }
}

/// The prefix token paired with position `i`: past the end of the prefix the
/// pairing continues with empty tokens.
pub open spec fn pad_at(prefix: Seq<Seq<char>>, i: int) -> Seq<char> {
    if 0 <= i < prefix.len() {
        prefix[i]
    } else {
        Seq::<char>::empty()
    }
}

/// The value tokens kept by the positional diff: a value token is dropped
/// exactly where the prefix token at the same position equals it, and the
/// kept tokens stay in their original order.
pub open spec fn kept_tokens(prefix: Seq<Seq<char>>, vals: Seq<Seq<char>>) -> Seq<Seq<char>>
    decreases vals.len(),
{
    if vals.len() == 0 {
        Seq::<Seq<char>>::empty()
    } else {
        let init = kept_tokens(prefix, vals.drop_last());
        if pad_at(prefix, vals.len() - 1) == vals.last() {
            init
        } else {
            init.push(vals.last())
        }
    }
}

/// A single trailing vendor tag is dropped, but never from a name that is
/// only that tag.
pub open spec fn tag_stripped(tags: Set<Seq<char>>, ts: Seq<Seq<char>>) -> Seq<Seq<char>> {
    if ts.len() > 1 && tags.contains(ts.last()) {
        ts.drop_last()
    } else {
        ts
    }
}

/// A single trailing literal `BIT` token is dropped.
pub open spec fn bit_stripped(ts: Seq<Seq<char>>) -> Seq<Seq<char>> {
    if ts.len() >= 1 && ts.last() == "BIT"@ {
        ts.drop_last()
    } else {
        ts
    }
}

/// The token pipeline of variant naming: positional diff against the owner's
/// upper-snake-case tokens, then tag stripping, then `BIT` stripping.
pub open spec fn variant_tokens(
    tags: Set<Seq<char>>,
    prefix_snake: Seq<char>,
    raw: Seq<char>,
) -> Seq<Seq<char>> {
    bit_stripped(tag_stripped(tags, kept_tokens(split_tokens(prefix_snake), split_tokens(raw))))
}

/// The derived variant identifier, given the owner's upper-snake-case name.
pub open spec fn variant_ident(
    tags: Set<Seq<char>>,
    prefix_snake: Seq<char>,
    raw: Seq<char>,
) -> Seq<char> {
    join_tokens(variant_tokens(tags, prefix_snake, raw))
}

/// The upper-snake-case form of a name, a pure function of its characters.
pub uninterp spec fn shouty_snake_of(s: Seq<char>) -> Seq<char>;

/// Relies on heck's `to_shouty_snake_case`: the upper-snake-case form of the
/// name, computed from the characters alone.
#[verifier::external_body]
fn to_shouty_snake(s: &str) -> (r: String)
    ensures
        r@ == shouty_snake_of(s@),
{
    heck::ShoutySnakeCase::to_shouty_snake_case(s)
}

/// The raw type name with its vendor prefix stripped; a name without the
/// prefix comes back unchanged.
pub fn derive_type_name(raw: &str) -> (r: &str)
    ensures
        r@ == stripped_type_name(raw@),
    decreases raw@.len(),
{
    let n = raw.unicode_len();
    if n >= 2 {
        let p = raw.substring_char(0, 2);
        if matches!(str_cmp(p, "Vk"), NameOrder::Same) {
            let rest = raw.substring_char(2, n);
            proof {
                assert(rest@ =~= raw@.skip(2));
            }
            return derive_type_name(rest);
        }
    }
    raw
}

/// The flag-set container type name: prefix stripped, then `FlagBits`
/// rewritten to `Flags`.
pub fn derive_flag_set_type_name(raw: &str) -> (r: String)
    ensures
        r@ == flag_bits_replaced(stripped_type_name(raw@)),
{
    let s = derive_type_name(raw);
    let n = s.unicode_len();
    let mut out = String::new();
    proof {
        assert(s@.skip(0) =~= s@);
        assert(out@ + flag_bits_replaced(s@) =~= flag_bits_replaced(s@));
    }
    let mut i: usize = 0;
    while i < n
        invariant
            n == s@.len(),
            i <= n,
            flag_bits_replaced(s@) == out@ + flag_bits_replaced(s@.skip(i as int)),
        decreases n - i,
    {
        let mut matched = false;
        if n >= 8 && i <= n - 8 {
            let sub = s.substring_char(i, i + 8);
            if matches!(str_cmp(sub, "FlagBits"), NameOrder::Same) {
                matched = true;
            }
            proof {
                assert(sub@ =~= s@.skip(i as int).subrange(0, 8));
            }
        }
        if matched {
            out.append("Flags");
            proof {
                assert(s@.skip(i as int).skip(8) =~= s@.skip(i as int + 8));
            }
            i += 8;
        } else {
            proof {
                if s@.skip(i as int).len() >= 8 {
                    assert(s@.skip(i as int).subrange(0, 8) != "FlagBits"@);
                }
                assert(s@.skip(i as int)[0] == s@[i as int]);
                assert(s@.skip(i as int).skip(1) =~= s@.skip(i as int + 1));
            }
            let c = s.substring_char(i, i + 1);
            proof {
                assert(c@ =~= seq![s@[i as int]]);
            }
            out.append(c);
            i += 1;
        }
    }
    proof {
        assert(s@.skip(n as int) =~= Seq::<char>::empty());
        assert(out@ + Seq::<char>::empty() =~= out@);
    }
    out
}

/// A name split at underscores.
fn split_underscore(s: &str) -> (r: Vec<String>)
    ensures
        r@.map_values(|t: String| t@) == split_tokens(s@),
        r@.len() >= 1,
{
    let n = s.unicode_len();
    let mut toks: Vec<String> = Vec::new();
    toks.push(String::new());
    proof {
        assert(toks@.map_values(|t: String| t@) =~= split_tokens(s@.take(0)));
    }
    let mut i: usize = 0;
    while i < n
        invariant
            n == s@.len(),
            i <= n,
            toks@.len() >= 1,
            toks@.map_values(|t: String| t@) == split_tokens(s@.take(i as int)),
        decreases n - i,
    {
        let ghost pre = s@.take(i as int);
        let ghost cur = s@.take(i as int + 1);
        proof {
            assert(cur.drop_last() =~= pre);
            assert(cur.last() == s@[i as int]);
        }
        let c = s.get_char(i);
        if c == '_' {
            toks.push(String::new());
            proof {
                assert(toks@.map_values(|t: String| t@) =~= split_tokens(cur));
            }
        } else {
            let piece = s.substring_char(i, i + 1);
            proof {
                assert(piece@ =~= seq![s@[i as int]]);
            }
            let mut t = match toks.pop() {
                Some(t) => t,
                None => String::new(),
            };
            t.append(piece);
            toks.push(t);
            proof {
                let m = toks@.map_values(|q: String| q@);
                let r0 = split_tokens(pre);
                assert(r0.last().push(s@[i as int]) =~= r0.last() + seq![s@[i as int]]);
                assert(m =~= r0.update(r0.len() - 1, r0.last().push(s@[i as int])));
            }
        }
        i += 1;
    }
    proof {
        assert(s@.take(n as int) =~= s@);
        lemma_split_tokens_len(s@);
    }
    toks
}

/// Tokens joined with underscores.
fn join_underscore(ts: &Vec<String>) -> (r: String)
    ensures
        r@ == join_tokens(ts@.map_values(|t: String| t@)),
{
    let ghost tsv = ts@.map_values(|t: String| t@);
    let n = ts.len();
    let mut out = String::new();
    let mut i: usize = 0;
    while i < n
        invariant
            n == ts@.len(),
            i <= n,
            tsv == ts@.map_values(|t: String| t@),
            out@ == join_tokens(tsv.take(i as int)),
        decreases n - i,
    {
        if i > 0 {
            out.append("_");
        }
        out.append(ts[i].as_str());
        proof {
            let cur = tsv.take(i as int + 1);
            assert(cur.drop_last() =~= tsv.take(i as int));
            assert(cur.last() == tsv[i as int]);
            if i == 0 {
                assert(out@ =~= join_tokens(cur));
            } else {
                assert(out@ =~= join_tokens(cur));
            }
        }
        i += 1;
    }
    proof {
        assert(tsv.take(n as int) =~= tsv);
    }
    out
}

/// The positional diff of value tokens against prefix tokens.
fn keep_differing(prefix: &Vec<String>, vals: &Vec<String>) -> (r: Vec<String>)
    ensures
        r@.map_values(|t: String| t@) == kept_tokens(
            prefix@.map_values(|t: String| t@),
            vals@.map_values(|t: String| t@),
        ),
{
    let ghost pv = prefix@.map_values(|t: String| t@);
    let ghost vv = vals@.map_values(|t: String| t@);
    let n = vals.len();
    let mut out: Vec<String> = Vec::new();
    proof {
        assert(out@.map_values(|t: String| t@) =~= kept_tokens(pv, vv.take(0)));
    }
    let mut i: usize = 0;
    while i < n
        invariant
            n == vals@.len(),
            i <= n,
            pv == prefix@.map_values(|t: String| t@),
            vv == vals@.map_values(|t: String| t@),
            out@.map_values(|t: String| t@) == kept_tokens(pv, vv.take(i as int)),
        decreases n - i,
    {
        let ghost cur = vv.take(i as int + 1);
        proof {
            assert(cur.drop_last() =~= vv.take(i as int));
            assert(cur.last() == vv[i as int]);
        }
        let same: bool = if i < prefix.len() {
            matches!(str_cmp(prefix[i].as_str(), vals[i].as_str()), NameOrder::Same)
        } else {
            vals[i].as_str().is_empty()
        };
        proof {
            if i >= prefix@.len() && vals@[i as int]@.len() == 0 {
                assert(vv[i as int] =~= Seq::<char>::empty());
            }
            assert(same == (pad_at(pv, i as int) == vv[i as int]));
        }
        if !same {
            out.push(vals[i].clone());
        }
        proof {
            assert(out@.map_values(|t: String| t@) =~= kept_tokens(pv, cur));
        }
        i += 1;
    }
    proof {
        assert(vv.take(n as int) =~= vv);
    }
    out
}

/// The short variant identifier for an enumerant of the named enum: the
/// owner's upper-snake-case tokens are diffed away positionally, then a
/// trailing vendor tag (when more than one token remains) and a trailing
/// `BIT` marker are dropped, and the survivors are joined with underscores.
pub fn derive_variant_name(tags: &TagSet, enum_name: &str, variant_name: &str) -> (r: String)
    requires
        tags.wf(),
    ensures
        r@ == variant_ident(tags@, shouty_snake_of(enum_name@), variant_name@),
{
    let prefix_snake = to_shouty_snake(enum_name);
    derive_variant_name_with_prefix(tags, prefix_snake.as_str(), variant_name)
}

/// The variant-naming pipeline given the owner's upper-snake-case name
/// directly, so the result is pinned exactly for every concrete prefix.
pub fn derive_variant_name_with_prefix(
    tags: &TagSet,
    prefix_snake: &str,
    variant_name: &str,
) -> (r: String)
    requires
        tags.wf(),
    ensures
        r@ == variant_ident(tags@, prefix_snake@, variant_name@),
{
    let ptoks = split_underscore(prefix_snake);
    let vtoks = split_underscore(variant_name);
    let mut kept = keep_differing(&ptoks, &vtoks);
    let ghost kept0 = kept@.map_values(|t: String| t@);
    if kept.len() > 1 {
        let last = &kept[kept.len() - 1];
        if tags.contains(last.as_str()) {
            proof {
                assert(kept0.last() == kept@[kept@.len() - 1]@);
            }
            kept.pop();
        }
    }
    proof {
        assert(kept@.map_values(|t: String| t@) =~= tag_stripped(tags@, kept0));
    }
    let ghost kept1 = kept@.map_values(|t: String| t@);
    if kept.len() >= 1 {
        let last = &kept[kept.len() - 1];
        if matches!(str_cmp(last.as_str(), "BIT"), NameOrder::Same) {
            proof {
                assert(kept1.last() == kept@[kept@.len() - 1]@);
            }
            kept.pop();
        }
    }
    proof {
        assert(kept@.map_values(|t: String| t@) =~= bit_stripped(kept1));
    }
    join_underscore(&kept)
}

/// Stripping the type prefix is idempotent: a second application changes
/// nothing, since the first leaves no leading prefix behind.
pub proof fn lemma_type_name_idempotent(s: Seq<char>)
    ensures
        stripped_type_name(stripped_type_name(s)) == stripped_type_name(s),
    decreases s.len(),
{
    if has_type_prefix(s) {
        lemma_type_name_idempotent(s.skip(2));
    }
}

/// A name of several tokens ending in a known vendor tag loses exactly that
/// trailing tag; a name that is one single tag-token is left whole, so the
/// result is never emptied by tag stripping.
pub proof fn lemma_tag_strip(tags: Set<Seq<char>>, ts: Seq<Seq<char>>)
    ensures
        ts.len() > 1 && tags.contains(ts.last()) ==> tag_stripped(tags, ts) == ts.drop_last(),
        ts.len() == 1 ==> tag_stripped(tags, ts) == ts,
        tag_stripped(tags, ts).len() >= 1 || ts.len() == 0,
{
}

/// A name ending in the literal token `BIT` loses exactly that token, and
/// only that one: the stripping never reaches a second trailing `BIT`.
pub proof fn lemma_bit_strip(ts: Seq<Seq<char>>)
    ensures
        ts.len() >= 1 && ts.last() == "BIT"@ ==> bit_stripped(ts) == ts.drop_last(),
        ts.len() >= 1 && ts.last() != "BIT"@ ==> bit_stripped(ts) == ts,
        ts.len() >= 2 && ts.last() == "BIT"@ && ts[ts.len() - 2] == "BIT"@ ==> bit_stripped(
            ts,
        ).last() == "BIT"@,
{
}

} // verus!

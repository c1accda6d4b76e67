//! Environment resolution: a newline-delimited `KEY=VALUE` block becomes the
//! complete process environment of a stage. Blank lines and lines without `=`
//! are ignored; a later binding of a key overwrites an earlier one. The block
//! alone determines the environment — nothing of the host's own environment
//! leaks through (the host calls the equivalent of `env_clear` before
//! applying these entries).

use crate::text::{find_first, is_space, lemma_find_first, lemma_find_first_is};
use vstd::prelude::*;

verus! {

/// One `KEY=VALUE` binding of a stage environment.
#[derive(Debug)]
pub struct EnvEntry {
    pub key: String,
    pub value: String,
}

/// Mathematical image of an [`EnvEntry`].
#[verifier::ext_equal]
pub ghost struct EnvPair {
    pub key: Seq<char>,
    pub value: Seq<char>,
}

impl View for EnvEntry {
    type V = EnvPair;

    open spec fn view(&self) -> EnvPair {
        EnvPair { key: self.key@, value: self.value@ }
    }
}

impl DeepView for EnvEntry {
    type V = EnvPair;

    open spec fn deep_view(&self) -> EnvPair {
        self.view()
    }
}

/// A line of nothing but whitespace (or nothing at all).
pub open spec fn is_blank(l: Seq<char>) -> bool {
    forall|k: int| 0 <= k < l.len() ==> is_space(#[trigger] l[k])
}

/// A line as the resolver sees it: one trailing carriage return removed.
pub open spec fn chomp_cr(l: Seq<char>) -> Seq<char> {
    if l.len() > 0 && l[l.len() - 1] == '\r' {
        l.drop_last()
    } else {
        l
    }
}

/// One line's effect on the mapping: blank lines and lines without `=` are
/// ignored; otherwise the text before the first `=` binds to the text after
/// it, overwriting any earlier binding of that key.
pub open spec fn apply_line(m: Map<Seq<char>, Seq<char>>, l: Seq<char>) -> Map<
    Seq<char>,
    Seq<char>,
> {
    if is_blank(l) {
        m
    } else {
        let j = find_first(l, |c: char| c == '=');
        if 0 <= j < l.len() {
            m.insert(l.take(j), l.skip(j + 1))
        } else {
            m
        }
    }
}

/// The mapping after resolving block `s` on top of `m`, line by line.
pub open spec fn env_after(m: Map<Seq<char>, Seq<char>>, s: Seq<char>) -> Map<Seq<char>, Seq<char>>
    decreases s.len(),
{
    let j = find_first(s, |c: char| c == '\n');
    if 0 <= j < s.len() {
        env_after(apply_line(m, chomp_cr(s.take(j))), s.skip(j + 1))
    } else {
        apply_line(m, chomp_cr(s))
    }
}

/// The mapping denoted by a whole environment block.
pub open spec fn env_map_of(s: Seq<char>) -> Map<Seq<char>, Seq<char>> {
    env_after(Map::empty(), s)
}

/// The keys of the entries are pairwise distinct.
pub open spec fn keys_distinct(es: Seq<EnvPair>) -> bool {
    forall|i: int, j: int| 0 <= i < j < es.len() ==> es[i].key != es[j].key
}

/// The entry list enumerates the mapping exactly: distinct keys, every entry
/// a binding of the mapping, every key of the mapping present.
pub open spec fn entries_match(es: Seq<EnvPair>, m: Map<Seq<char>, Seq<char>>) -> bool {
    &&& keys_distinct(es)
    &&& forall|i: int| 0 <= i < es.len() ==> m.contains_pair((#[trigger] es[i]).key, es[i].value)
    &&& forall|k: Seq<char>|
        m.dom().contains(k) ==> exists|i: int| 0 <= i < es.len() && (#[trigger] es[i]).key == k
}

/// The mapping an entry list denotes, later entries overwriting earlier ones.
pub open spec fn map_of_entries(es: Seq<EnvPair>) -> Map<Seq<char>, Seq<char>>
    decreases es.len(),
{
    if es.len() == 0 {
        Map::empty()
    } else {
        map_of_entries(es.drop_last()).insert(es.last().key, es.last().value)
    }
}

/// The domain of `map_of_entries` is exactly the set of entry keys.
pub proof fn lemma_map_of_entries_dom(es: Seq<EnvPair>)
    ensures
        forall|k: Seq<char>|
            #[trigger] map_of_entries(es).dom().contains(k) ==> exists|i: int|
                0 <= i < es.len() && (#[trigger] es[i]).key == k,
        forall|i: int|
            0 <= i < es.len() ==> map_of_entries(es).dom().contains((#[trigger] es[i]).key),
    decreases es.len(),
{
    if es.len() > 0 {
        let dl = es.drop_last();
        lemma_map_of_entries_dom(dl);
        assert(forall|i: int| 0 <= i < dl.len() ==> dl[i] == es[i]);
        assert forall|k: Seq<char>| #[trigger] map_of_entries(es).dom().contains(k) implies exists|
            i: int,
        | 0 <= i < es.len() && (#[trigger] es[i]).key == k by {
            if k == es.last().key {
                assert(es[es.len() - 1].key == k);
            } else {
                assert(map_of_entries(dl).dom().contains(k));
            }
        }
    }
}

/// An entry list with distinct keys enumerates its own mapping.
pub proof fn lemma_entries_enumerate(es: Seq<EnvPair>)
    requires
        keys_distinct(es),
    ensures
        entries_match(es, map_of_entries(es)),
    decreases es.len(),
{
    lemma_map_of_entries_dom(es);
    if es.len() > 0 {
        let dl = es.drop_last();
        assert(forall|i: int| 0 <= i < dl.len() ==> dl[i] == es[i]);
        lemma_entries_enumerate(dl);
        assert forall|i: int|
            0 <= i < es.len() implies map_of_entries(es).contains_pair(
            (#[trigger] es[i]).key,
            es[i].value,
        ) by {
            if i < es.len() - 1 {
                assert(map_of_entries(dl).contains_pair(es[i].key, es[i].value));
                assert(es[i].key != es.last().key);
            }
        }
    }
}

/// Appending an entry inserts its binding.
pub proof fn lemma_map_of_push(es: Seq<EnvPair>, p: EnvPair)
    ensures
        map_of_entries(es.push(p)) == map_of_entries(es).insert(p.key, p.value),
{
    assert(es.push(p).drop_last() =~= es);
    assert(es.push(p).last() == p);
}

/// Replacing the value at one position (key unchanged) inserts the new
/// binding, provided keys are distinct.
pub proof fn lemma_map_of_update(es: Seq<EnvPair>, p: int, v: Seq<char>)
    requires
        keys_distinct(es),
        0 <= p < es.len(),
    ensures
        map_of_entries(es.update(p, (EnvPair { key: es[p].key, value: v }))) == map_of_entries(
            es,
        ).insert(es[p].key, v),
    decreases es.len(),
{
    let es2 = es.update(p, (EnvPair { key: es[p].key, value: v }));
    if p == es.len() - 1 {
        assert(es2.drop_last() =~= es.drop_last());
        assert(map_of_entries(es.drop_last()).insert(es[p].key, v) =~= map_of_entries(
            es.drop_last(),
        ).insert(es[p].key, es[p].value).insert(es[p].key, v));
    } else {
        let dl = es.drop_last();
        assert(forall|i: int| 0 <= i < dl.len() ==> dl[i] == es[i]);
        assert(es2.drop_last() =~= dl.update(p, (EnvPair { key: es[p].key, value: v })));
        assert(es2.last() == es.last());
        lemma_map_of_update(dl, p, v);
        assert(es[p].key != es.last().key);
        assert(map_of_entries(dl).insert(es[p].key, v).insert(es.last().key, es.last().value)
            =~= map_of_entries(dl).insert(es.last().key, es.last().value).insert(es[p].key, v));
    }
}

/// Insert or overwrite one binding, keeping keys distinct.
fn upsert(entries: &mut Vec<EnvEntry>, key: String, value: String)
    requires
        keys_distinct(old(entries).deep_view()),
    ensures
        keys_distinct(final(entries).deep_view()),
        map_of_entries(final(entries).deep_view()) == map_of_entries(
            old(entries).deep_view(),
        ).insert(key@, value@),
{
    let ghost es0 = entries.deep_view();
    let ghost kv = key@;
    let ghost vv = value@;
    let mut p: usize = 0;
    while p < entries.len()
        invariant
            p <= es0.len(),
            entries.deep_view() == es0,
            es0 == old(entries).deep_view(),
            keys_distinct(es0),
            key@ == kv,
            value@ == vv,
            forall|k: int| 0 <= k < p ==> (#[trigger] es0[k]).key != kv,
        decreases es0.len() - p,
    {
        if entries[p].key == key {
            let ghost v0 = entries@;
            let prev = entries.remove(p);
            let ent = EnvEntry { key: prev.key, value: value };
            entries.insert(p, ent);
            proof {
                let target = es0.update(p as int, (EnvPair { key: es0[p as int].key, value: vv }));
                assert forall|k: int|
                    0 <= k < entries.deep_view().len() implies entries.deep_view()[k]
                    == target[k] by {
                    assert(entries.deep_view()[k] == entries@[k].deep_view());
                    if k < p {
                        assert(entries@[k] == v0[k]);
                    } else if k == p {
                        assert(entries@[k] == ent);
                        assert(ent@ == (EnvPair { key: es0[p as int].key, value: vv }));
                    } else {
                        assert(entries@[k] == v0.remove(p as int)[k - 1]);
                        assert(entries@[k] == v0[k]);
                    }
                }
                assert(entries.deep_view() =~= target);
                lemma_map_of_update(es0, p as int, vv);
                assert(es0[p as int].key == kv);
            }
            return ;
        }
        proof {
            assert(es0[p as int] == entries@[p as int].deep_view());
        }
        p = p + 1;
    }
    entries.push(EnvEntry { key: key, value: value });
    proof {
        assert(entries.deep_view() =~= es0.push((EnvPair { key: kv, value: vv })));
        lemma_map_of_push(es0, (EnvPair { key: kv, value: vv }));
    }
}

/// Parse a newline-delimited `KEY=VALUE` block into the environment entries
/// it denotes: the result enumerates `env_map_of` of the block, one entry per
/// key, later duplicate lines having overwritten earlier ones.
pub fn parse_env_map(env_str: &str) -> (r: Vec<EnvEntry>)
    ensures
        entries_match(r.deep_view(), env_map_of(env_str@)),
{
    let len = env_str.unicode_len();
    let mut entries: Vec<EnvEntry> = Vec::new();
    proof {
        assert(entries.deep_view() =~= Seq::<EnvPair>::empty());
        assert(env_str@.skip(0) =~= env_str@);
    }
    let mut i: usize = 0;
    loop
        invariant
            i <= len,
            len == env_str@.len(),
            keys_distinct(entries.deep_view()),
            env_map_of(env_str@) == env_after(
                map_of_entries(entries.deep_view()),
                env_str@.skip(i as int),
            ),
        ensures
            keys_distinct(entries.deep_view()),
            env_map_of(env_str@) == map_of_entries(entries.deep_view()),
        decreases len - i,
    {
        let ghost s = env_str@.skip(i as int);
        let ghost m_acc = map_of_entries(entries.deep_view());
        let mut j = i;
        while j < len && env_str.get_char(j) != '\n'
            invariant
                i <= j <= len,
                len == env_str@.len(),
                forall|k: int| i <= k < j ==> env_str@[k] != '\n',
            decreases len - j,
        {
            j = j + 1;
        }
        proof {
            assert forall|k: int| 0 <= k < j - i implies !((|c: char| c == '\n')(s[k])) by {
                assert(s[k] == env_str@[i + k]);
            }
            if j < len {
                assert(s[j - i] == env_str@[j as int]);
            }
            lemma_find_first_is(s, |c: char| c == '\n', j - i);
        }
        let has_nl = j < len;
        let e = if j > i && env_str.get_char(j - 1) == '\r' {
            j - 1
        } else {
            j
        };
        let ghost line = chomp_cr(s.take(j - i));
        proof {
            assert(s.take(j - i) =~= env_str@.subrange(i as int, j as int));
            if j > i && env_str@[j - 1] == '\r' {
                assert(line =~= env_str@.subrange(i as int, e as int));
            } else {
                assert(line =~= env_str@.subrange(i as int, e as int));
            }
        }
        let mut b = i;
        while b < e && is_space_ch(env_str.get_char(b))
            invariant
                i <= b <= e <= len,
                len == env_str@.len(),
                forall|k: int| i <= k < b ==> is_space(#[trigger] env_str@[k]),
            decreases e - b,
        {
            b = b + 1;
        }
        let blank = b == e;
        proof {
            if blank {
                assert forall|k: int| 0 <= k < line.len() implies is_space(
                    #[trigger] line[k],
                ) by {
                    assert(line[k] == env_str@[i + k]);
                }
                assert(is_blank(line));
            } else {
                assert(line[b - i] == env_str@[b as int]);
                assert(!is_space(line[b - i]));
                assert(!is_blank(line));
            }
        }
        if !blank {
            let mut q = i;
            while q < e && env_str.get_char(q) != '='
                invariant
                    i <= q <= e <= len,
                    len == env_str@.len(),
                    forall|k: int| i <= k < q ==> env_str@[k] != '=',
                decreases e - q,
            {
                q = q + 1;
            }
            proof {
                assert forall|k: int| 0 <= k < q - i implies !((|c: char| c == '=')(
                    line[k],
                )) by {
                    assert(line[k] == env_str@[i + k]);
                }
                if q < e {
                    assert(line[q - i] == env_str@[q as int]);
                }
                lemma_find_first_is(line, |c: char| c == '=', q - i);
            }
            if q < e {
                let key = env_str.substring_char(i, q).to_owned();
                let value = env_str.substring_char(q + 1, e).to_owned();
                proof {
                    assert(key@ =~= line.take(q - i));
                    assert(value@ =~= line.skip(q - i + 1));
                    assert(apply_line(m_acc, line) == m_acc.insert(key@, value@));
                }
                upsert(&mut entries, key, value);
            } else {
                proof {
                    assert(apply_line(m_acc, line) == m_acc);
                }
            }
        } else {
            proof {
                assert(apply_line(m_acc, line) == m_acc);
            }
        }
        if has_nl {
            proof {
                assert(s.skip(j - i + 1) =~= env_str@.skip(j + 1));
                assert(env_after(m_acc, s) == env_after(apply_line(m_acc, line), s.skip(j - i + 1)));
            }
            i = j + 1;
        } else {
            proof {
                assert(s.take(j - i) =~= s);
                assert(env_after(m_acc, s) == apply_line(m_acc, line));
            }
            break ;
        }
    }
    proof {
        lemma_entries_enumerate(entries.deep_view());
    }
    entries
}

/// Whitespace test on one character.
fn is_space_ch(c: char) -> (b: bool)
    ensures
        b == is_space(c),
{
    c == ' ' || c == '\t' || c == '\r' || c == '\n'
}

} // verus!

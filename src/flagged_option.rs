use vstd::prelude::*;

use indexmap::IndexMap;

use crate::text::{chars_of, option_view, push_char, split_char, split_spec, string_from, string_views};

verus! {

broadcast use vstd::seq::group_seq_axioms;

#[verifier::external_type_specification]
#[verifier::external_body]
#[verifier::reject_recursive_types(K)]
#[verifier::reject_recursive_types(V)]
#[verifier::reject_recursive_types(S)]
pub struct ExIndexMap<K, V, S>(IndexMap<K, V, S>);

/// The entries of a qualifier map, in insertion order.
pub uninterp spec fn qualifier_entries(m: IndexMap<String, Option<String>>) -> Seq<
    (Seq<char>, Option<Seq<char>>),
>;

/// Whether `i` is the position of the first entry with key `k`.
pub open spec fn is_first_key(es: Seq<(Seq<char>, Option<Seq<char>>)>, k: Seq<char>, i: int) -> bool {
    &&& 0 <= i < es.len()
    &&& es[i].0 == k
    &&& forall|j: int| 0 <= j < i ==> #[trigger] es[j].0 != k
}

/// The entries after an insertion: an existing key keeps its place and takes
/// the new value; a new key goes last.
pub open spec fn insert_spec(
    es: Seq<(Seq<char>, Option<Seq<char>>)>,
    k: Seq<char>,
    v: Option<Seq<char>>,
) -> Seq<(Seq<char>, Option<Seq<char>>)> {
    if exists|i: int| is_first_key(es, k, i) {
        es.update(choose|i: int| is_first_key(es, k, i), (k, v))
    } else {
        es.push((k, v))
    }
}

/// Relies on `IndexMap::new`: the new map is empty.
#[verifier::external_body]
fn new_qualifiers() -> (r: IndexMap<String, Option<String>>)
    ensures
        qualifier_entries(r) == Seq::<(Seq<char>, Option<Seq<char>>)>::empty(),
{
    IndexMap::new()
}

/// Relies on `IndexMap::insert`: where the key is present it keeps its place
/// and takes the new value; otherwise the pair is inserted last.
#[verifier::external_body]
fn insert_qualifier(m: &mut IndexMap<String, Option<String>>, key: String, value: Option<String>)
    ensures
        qualifier_entries(*final(m)) == insert_spec(qualifier_entries(*old(m)), key@, option_view(value)),
{
    m.insert(key, value);
}

/// The position of the first `=` in a text, if any.
pub open spec fn first_eq(s: Seq<char>) -> Option<int> {
    if exists|i: int| 0 <= i < s.len() && s[i] == '=' {
        Some(choose|i: int| 0 <= i < s.len() && s[i] == '=' && forall|j: int| 0 <= j < i ==> s[j] != '=')
    } else {
        None
    }
}

/// A `key` or `key=value` pair, split at the first `=`.
pub open spec fn pair_spec(s: Seq<char>) -> (Seq<char>, Option<Seq<char>>) {
    match first_eq(s) {
        Some(i) => (s.subrange(0, i), Some(s.subrange(i + 1, s.len() as int))),
        None => (s, None),
    }
}

fn pair_of(cs: &Vec<char>) -> (r: (String, Option<String>))
    ensures
        (r.0@, option_view(r.1)) == pair_spec(cs@),
{
    let mut i: usize = 0;
    while i < cs.len()
        invariant
            i <= cs@.len(),
            forall|j: int| 0 <= j < i ==> cs@[j] != '=',
        decreases cs@.len() - i,
    {
        if cs[i] == '=' {
            proof {
                let c = choose|c: int|
                    0 <= c < cs@.len() && cs@[c] == '=' && forall|j: int| 0 <= j < c ==> cs@[j] != '=';
                assert(0 <= c < cs@.len() && cs@[c] == '=' && forall|j: int|
                    0 <= j < c ==> cs@[j] != '=') by {
                    assert(0 <= i < cs@.len() && cs@[i as int] == '=' && forall|j: int|
                        0 <= j < i ==> cs@[j] != '=');
                }
                if c < i {
                    assert(cs@[c] != '=');
                } else if i < c {
                    assert(cs@[i as int] != '=');
                }
            }
            return (string_from(cs, 0, i), Some(string_from(cs, i + 1, cs.len())));
        }
        i += 1;
    }
    proof {
        assert(cs@.subrange(0, cs@.len() as int) =~= cs@);
    }
    (string_from(cs, 0, cs.len()), None)
}

/// Splits a `key` or `key=value` pair at its first `=`; see `pair_spec`.
pub fn parse_pair(pair: &str) -> (r: Result<(String, Option<String>), ()>)
    ensures
        r matches Ok(p) && (p.0@, option_view(p.1)) == pair_spec(pair@),
{
    let cs = chars_of(pair);
    Ok(pair_of(&cs))
}

/// The entries of the qualifiers given by the pieces, inserted in order.
pub open spec fn qualifiers_spec(pieces: Seq<Seq<char>>) -> Seq<(Seq<char>, Option<Seq<char>>)>
    decreases pieces.len(),
{
    if pieces.len() == 0 {
        Seq::empty()
    } else {
        let p = pair_spec(pieces.last());
        insert_spec(qualifiers_spec(pieces.drop_last()), p.0, p.1)
    }
}

/// A command-line option: `--option[=value][:qualifier[=value]]...`, or
/// `-o[value]`.
#[derive(Debug, PartialEq)]
pub struct FlaggedOption {
    /// Whether it is a short option, with one `-`.
    pub short: bool,
    pub option: String,
    pub value: Option<String>,
    pub qualifiers: Option<IndexMap<String, Option<String>>>,
}

/// What an option text reads as: whether it is short, its name, its value,
/// and its qualifiers' entries; `None` where it starts with no `-`, or is a
/// short option without an ASCII letter after the `-`.
pub open spec fn option_spec(s: Seq<char>) -> Option<
    (bool, Seq<char>, Option<Seq<char>>, Option<Seq<(Seq<char>, Option<Seq<char>>)>>),
> {
    if s.len() >= 2 && s[0] == '-' && s[1] == '-' {
        let pieces = split_spec(s.subrange(2, s.len() as int), ':');
        let head = pair_spec(pieces[0]);
        Some(
            (
                false,
                head.0,
                head.1,
                if pieces.len() > 1 {
                    Some(qualifiers_spec(pieces.drop_first()))
                } else {
                    None
                },
            ),
        )
    } else if s.len() >= 2 && s[0] == '-' && (s[1] as u32) < 128 {
        Some(
            (
                true,
                seq![s[1]],
                if s.len() > 2 {
                    Some(s.subrange(2, s.len() as int))
                } else {
                    None
                },
                None,
            ),
        )
    } else {
        None
    }
}

/// The view of a parsed option.
pub open spec fn flagged_view(o: FlaggedOption) -> (
    bool,
    Seq<char>,
    Option<Seq<char>>,
    Option<Seq<(Seq<char>, Option<Seq<char>>)>>,
) {
    (
        o.short,
        o.option@,
        option_view(o.value),
        match o.qualifiers {
            Some(q) => Some(qualifier_entries(q)),
            None => None,
        },
    )
}

proof fn lemma_split_nonempty(s: Seq<char>, sep: char)
    ensures
        split_spec(s, sep).len() >= 1,
    decreases s.len(),
{
    if s.len() > 0 {
        lemma_split_nonempty(s.drop_last(), sep);
    }
}

impl FlaggedOption {
    /// Parses an option; see `option_spec`.
    pub fn from_str(opt: &str) -> (r: Result<FlaggedOption, ()>)
        ensures
            match r {
                Ok(o) => option_spec(opt@) == Some(flagged_view(o)),
                Err(_) => option_spec(opt@) is None,
            },
    {
        let cs = chars_of(opt);
        if cs.len() >= 2 && cs[0] == '-' && cs[1] == '-' {
            let rest = string_from(&cs, 2, cs.len());
            let pieces = split_char(rest.as_str(), ':');
            let ghost ps = string_views(pieces@);
            proof {
                lemma_split_nonempty(rest@, ':');
            }
            let head = pair_of(&chars_of(pieces[0].as_str()));
            if pieces.len() == 1 {
                return Ok(FlaggedOption { short: false, option: head.0, value: head.1, qualifiers: None });
            }
            let mut qualifiers = new_qualifiers();
            let mut i: usize = 1;
            proof {
                assert(ps.drop_first().subrange(0, 0) =~= Seq::<Seq<char>>::empty());
            }
            while i < pieces.len()
                invariant
                    1 <= i <= pieces@.len(),
                    ps == string_views(pieces@),
                    qualifier_entries(qualifiers) == qualifiers_spec(
                        ps.drop_first().subrange(0, i - 1),
                    ),
                decreases pieces@.len() - i,
            {
                let pair = pair_of(&chars_of(pieces[i].as_str()));
                insert_qualifier(&mut qualifiers, pair.0, pair.1);
                proof {
                    let q = ps.drop_first();
                    assert(q.subrange(0, i as int).drop_last() =~= q.subrange(0, i - 1));
                    assert(q.subrange(0, i as int).last() == ps[i as int]);
                }
                i += 1;
            }
            proof {
                assert(ps.drop_first().subrange(0, pieces@.len() - 1) =~= ps.drop_first());
            }
            Ok(FlaggedOption { short: false, option: head.0, value: head.1, qualifiers: Some(qualifiers) })
        } else if cs.len() >= 2 && cs[0] == '-' && (cs[1] as u32) < 128 {
            let mut option = String::new();
            push_char(&mut option, cs[1]);
            proof {
                assert(option@ =~= seq![cs@[1]]);
            }
            let value = if cs.len() > 2 {
                Some(string_from(&cs, 2, cs.len()))
            } else {
                None
            };
            Ok(FlaggedOption { short: true, option, value, qualifiers: None })
        } else {
            Err(())
        }
    }
}

} // verus!

//! Data storage: namespace derivation and the registry model.
//!
//! The registry stores opaque `(topic, invite URL)` string pairs in a hash
//! named after the owning chat, so that distinct chats' topic groups never
//! collide even if the backend is shared with unrelated data.  The registry
//! itself performs no validation; handlers validate at write time.

use vstd::prelude::*;

use crate::utils::str_eq;

verus! {

/// The decimal digit `d` as a character.
pub open spec fn digit_char(d: int) -> char {
    if d == 0 {
        '0'
    } else if d == 1 {
        '1'
    } else if d == 2 {
        '2'
    } else if d == 3 {
        '3'
    } else if d == 4 {
        '4'
    } else if d == 5 {
        '5'
    } else if d == 6 {
        '6'
    } else if d == 7 {
        '7'
    } else if d == 8 {
        '8'
    } else {
        '9'
    }
}

/// The usual decimal rendering of a non-negative integer: most significant
/// digit first, no leading zeros (except for zero itself).
pub open spec fn dec_rep(n: int) -> Seq<char>
    decreases n,
{
    if n < 10 {
        seq![digit_char(n)]
    } else {
        dec_rep(n / 10).push(digit_char(n % 10))
    }
}

/// The decimal rendering of a signed integer: a minus sign before the
/// magnitude when negative.
pub open spec fn signed_dec_rep(v: int) -> Seq<char> {
    if v >= 0 {
        dec_rep(v)
    } else {
        seq!['-'] + dec_rep(-v)
    }
}

/// The registry hash key owned by a chat: a fixed prefix, a colon, and the
/// chat id in decimal.
pub open spec fn hash_key_spec(group_id: int) -> Seq<char> {
    "topicgroups:"@ + signed_dec_rep(group_id)
}

/// The decimal digit `d` as a character.
fn digit_of(d: u64) -> (c: char)
    requires
        d < 10,
    ensures
        c == digit_char(d as int),
{
    if d == 0 {
        '0'
    } else if d == 1 {
        '1'
    } else if d == 2 {
        '2'
    } else if d == 3 {
        '3'
    } else if d == 4 {
        '4'
    } else if d == 5 {
        '5'
    } else if d == 6 {
        '6'
    } else if d == 7 {
        '7'
    } else if d == 8 {
        '8'
    } else {
        '9'
    }
}

/// Append the decimal rendering of `n` to `out`.
fn push_decimal(out: &mut String, n: u64)
    ensures
        final(out)@ == old(out)@ + dec_rep(n as int),
    decreases n,
{
    if n < 10 {
        let ghost before = out@;
        out.push(digit_of(n));
        proof {
            assert(before.push(digit_char(n as int)) =~= before + dec_rep(n as int));
        }
    } else {
        push_decimal(out, n / 10);
        let ghost mid = out@;
        out.push(digit_of(n % 10));
        proof {
            assert(mid.push(digit_char(n as int % 10)) =~= old(out)@ + dec_rep(n as int));
        }
    }
}

/// Convert a group id into a hash key used for storing and retrieving data.
///
/// This is done to get some additional namespacing in case the database is
/// shared.
pub fn get_hash_key(group_id: i64) -> (r: String)
    ensures
        r@ == hash_key_spec(group_id as int),
{
    let mut out = "topicgroups:".to_owned();
    if group_id >= 0 {
        push_decimal(&mut out, group_id as u64);
    } else {
        out.push('-');
        let ghost mid = out@;
        // `-group_id` itself can overflow on the smallest id, so negate
        // after stepping into range
        let magnitude: u64 = ((-(group_id + 1)) as u64) + 1;
        proof {
            assert(magnitude as int == -(group_id as int));
        }
        push_decimal(&mut out, magnitude);
        proof {
            assert(("topicgroups:"@ + seq!['-']) + dec_rep(magnitude as int)
                =~= "topicgroups:"@ + (seq!['-'] + dec_rep(magnitude as int)));
            assert("topicgroups:"@.push('-') =~= "topicgroups:"@ + seq!['-']);
        }
    }
    out
}

/// One stored registry row: hash key, topic name, invite URL.
pub type RegistryRow = (Seq<char>, Seq<char>, Seq<char>);

/// The value stored under `(key, topic)`: the first matching row wins.
pub open spec fn lookup(rows: Seq<RegistryRow>, key: Seq<char>, topic: Seq<char>) -> Option<
    Seq<char>,
>
    decreases rows.len(),
{
    if rows.len() == 0 {
        None
    } else if rows[0].0 == key && rows[0].1 == topic {
        Some(rows[0].2)
    } else {
        lookup(rows.drop_first(), key, topic)
    }
}

/// The rows after storing `url` under `(key, topic)`: the first matching
/// row is overwritten in place; without a match the row is appended.
pub open spec fn saved(rows: Seq<RegistryRow>, key: Seq<char>, topic: Seq<char>, url: Seq<char>)
    -> Seq<RegistryRow>
    decreases rows.len(),
{
    if rows.len() == 0 {
        seq![(key, topic, url)]
    } else if rows[0].0 == key && rows[0].1 == topic {
        seq![(key, topic, url)] + rows.drop_first()
    } else {
        seq![rows[0]] + saved(rows.drop_first(), key, topic, url)
    }
}

/// All `(topic, url)` pairs stored under `key`, in row order.
pub open spec fn groups_in(rows: Seq<RegistryRow>, key: Seq<char>) -> Seq<(Seq<char>, Seq<char>)>
    decreases rows.len(),
{
    if rows.len() == 0 {
        Seq::empty()
    } else {
        let rest = groups_in(rows.drop_first(), key);
        if rows[0].0 == key {
            seq![(rows[0].1, rows[0].2)] + rest
        } else {
            rest
        }
    }
}

/// Storing under `(key, topic)` changes exactly that entry and no other.
pub proof fn lemma_lookup_saved(
    rows: Seq<RegistryRow>,
    key: Seq<char>,
    topic: Seq<char>,
    url: Seq<char>,
    k: Seq<char>,
    t: Seq<char>,
)
    ensures
        lookup(saved(rows, key, topic, url), k, t) == if k == key && t == topic {
            Some(url)
        } else {
            lookup(rows, k, t)
        },
    decreases rows.len(),
{
    let stored = saved(rows, key, topic, url);
    if rows.len() == 0 {
        assert(stored == seq![(key, topic, url)]);
        assert(stored.drop_first() =~= Seq::<RegistryRow>::empty());
    } else if rows[0].0 == key && rows[0].1 == topic {
        assert(stored == seq![(key, topic, url)] + rows.drop_first());
        assert(stored.drop_first() =~= rows.drop_first());
    } else {
        assert(stored == seq![rows[0]] + saved(rows.drop_first(), key, topic, url));
        assert(stored.drop_first() =~= saved(rows.drop_first(), key, topic, url));
        lemma_lookup_saved(rows.drop_first(), key, topic, url, k, t);
    }
}

/// Two stores under the same namespace with distinct topics land in the
/// registry regardless of their order, and no other entry is disturbed:
/// concurrent additions of distinct topics lose no update.
pub proof fn lemma_saves_commute(
    rows: Seq<RegistryRow>,
    key: Seq<char>,
    t1: Seq<char>,
    u1: Seq<char>,
    t2: Seq<char>,
    u2: Seq<char>,
)
    requires
        t1 != t2,
    ensures
        ({
            let first_then_second = saved(saved(rows, key, t1, u1), key, t2, u2);
            let second_then_first = saved(saved(rows, key, t2, u2), key, t1, u1);
            &&& lookup(first_then_second, key, t1) == Some(u1)
            &&& lookup(first_then_second, key, t2) == Some(u2)
            &&& forall|k: Seq<char>, t: Seq<char>|
                lookup(first_then_second, k, t) == lookup(second_then_first, k, t)
        }),
{
    let first_then_second = saved(saved(rows, key, t1, u1), key, t2, u2);
    let second_then_first = saved(saved(rows, key, t2, u2), key, t1, u1);
    lemma_lookup_saved(saved(rows, key, t1, u1), key, t2, u2, key, t1);
    lemma_lookup_saved(rows, key, t1, u1, key, t1);
    lemma_lookup_saved(saved(rows, key, t1, u1), key, t2, u2, key, t2);
    assert forall|k: Seq<char>, t: Seq<char>|
        lookup(first_then_second, k, t) == lookup(second_then_first, k, t) by {
        lemma_lookup_saved(saved(rows, key, t1, u1), key, t2, u2, k, t);
        lemma_lookup_saved(rows, key, t1, u1, k, t);
        lemma_lookup_saved(saved(rows, key, t2, u2), key, t1, u1, k, t);
        lemma_lookup_saved(rows, key, t2, u2, k, t);
    }
}

/// The rows after storing each `(topic, url)` pair in turn under `key`.
pub open spec fn saved_all(
    rows: Seq<RegistryRow>,
    key: Seq<char>,
    pairs: Seq<(Seq<char>, Seq<char>)>,
) -> Seq<RegistryRow>
    decreases pairs.len(),
{
    if pairs.len() == 0 {
        rows
    } else {
        saved(saved_all(rows, key, pairs.drop_last()), key, pairs.last().0, pairs.last().1)
    }
}

/// Storing any number of pairs with pairwise distinct topics under one
/// namespace loses none of them: afterwards every topic holds its URL.
pub proof fn lemma_all_saves_land(
    rows: Seq<RegistryRow>,
    key: Seq<char>,
    pairs: Seq<(Seq<char>, Seq<char>)>,
)
    requires
        forall|i: int, j: int|
            0 <= i < j < pairs.len() ==> pairs[i].0 != pairs[j].0,
    ensures
        forall|i: int|
            0 <= i < pairs.len() ==> lookup(saved_all(rows, key, pairs), key, pairs[i].0)
                == Some(pairs[i].1),
    decreases pairs.len(),
{
    if pairs.len() > 0 {
        let prev = pairs.drop_last();
        let before = saved_all(rows, key, prev);
        let last = pairs.last();
        assert(forall|i: int| 0 <= i < prev.len() ==> prev[i] == pairs[i]);
        lemma_all_saves_land(rows, key, prev);
        lemma_lookup_saved(before, key, last.0, last.1, key, last.0);
        assert forall|i: int|
            0 <= i < pairs.len() implies lookup(saved_all(rows, key, pairs), key, pairs[i].0)
            == Some(pairs[i].1) by {
            if i < pairs.len() - 1 {
                lemma_lookup_saved(before, key, last.0, last.1, key, pairs[i].0);
                assert(pairs[i].0 != last.0);
            }
        }
    }
}

/// An in-memory registry implementing the same save/list contract as the
/// external key/value backend: a sequence of `(key, topic, url)` rows.
/// Tests substitute it for the network-backed registry, and the handler
/// contracts are stated against it.
pub struct MemoryRegistry {
    rows: Vec<(String, String, String)>,
}

impl MemoryRegistry {
    /// The stored rows, at the specification level.
    pub closed spec fn rows(self) -> Seq<RegistryRow> {
        self.rows.deep_view()
    }

    /// An empty registry.
    pub fn new() -> (r: MemoryRegistry)
        ensures
            r.rows() == Seq::<RegistryRow>::empty(),
    {
        let r = MemoryRegistry { rows: Vec::new() };
        proof {
            assert(r.rows() =~= Seq::<RegistryRow>::empty());
        }
        r
    }

    /// Save a topic group.
    ///
    /// Args:
    /// - group_id: The id of the main group.
    /// - topic: The name of the topic group.
    /// - url: The group url.
    #[verifier::loop_isolation(false)]
    pub fn save_group(&mut self, group_id: i64, topic: &str, url: &str)
        ensures
            final(self).rows() == saved(
                old(self).rows(),
                hash_key_spec(group_id as int),
                topic@,
                url@,
            ),
    {
        let key = get_hash_key(group_id);
        let ghost keyv = key@;
        let ghost orig = self.rows();
        let mut i: usize = 0;
        while i < self.rows.len()
            invariant
                i <= self.rows.len(),
                self.rows() == orig,
                keyv == key@,
                keyv == hash_key_spec(group_id as int),
                forall|j: int|
                    0 <= j < i ==> !(orig[j].0 == keyv && orig[j].1 == topic@),
            decreases self.rows.len() - i,
        {
            if str_eq(self.rows[i].0.as_str(), key.as_str()) && str_eq(
                self.rows[i].1.as_str(),
                topic,
            ) {
                proof {
                    assert(orig[i as int].0 == self.rows@[i as int].0@);
                    assert(orig[i as int].1 == self.rows@[i as int].1@);
                }
                self.rows.set(i, (key, topic.to_owned(), url.to_owned()));
                proof {
                    assert(self.rows() =~= orig.update(i as int, (keyv, topic@, url@)));
                    lemma_saved_match_at(orig, keyv, topic@, url@, i as int);
                    assert(self.rows() == saved(orig, hash_key_spec(group_id as int), topic@,
                        url@));
                }
                return ;
            }
            i = i + 1;
        }
        self.rows.push((key, topic.to_owned(), url.to_owned()));
        proof {
            assert(self.rows() =~= orig.push((keyv, topic@, url@)));
            lemma_saved_no_match(orig, keyv, topic@, url@);
        }
    }

    /// Return list of all groups within that namespace, in storage order.
    pub fn get_groups(&self, group_id: i64) -> (r: Vec<(String, String)>)
        ensures
            r.deep_view() == groups_in(self.rows(), hash_key_spec(group_id as int)),
    {
        let key = get_hash_key(group_id);
        let mut out: Vec<(String, String)> = Vec::new();
        let mut i: usize = 0;
        proof {
            assert(out.deep_view() =~= Seq::<(Seq<char>, Seq<char>)>::empty());
            assert(self.rows().skip(0) =~= self.rows());
            assert(Seq::<(Seq<char>, Seq<char>)>::empty() + groups_in(self.rows(), key@)
                =~= groups_in(self.rows(), key@));
        }
        while i < self.rows.len()
            invariant
                i <= self.rows.len(),
                key@ == hash_key_spec(group_id as int),
                out.deep_view() + groups_in(self.rows().skip(i as int), key@) == groups_in(
                    self.rows(),
                    key@,
                ),
            decreases self.rows.len() - i,
        {
            let ghost rest = self.rows().skip(i as int);
            let ghost old_out = out.deep_view();
            proof {
                assert(rest.len() == self.rows().len() - i);
                assert(rest[0] == self.rows()[i as int]);
                assert(rest.drop_first() =~= self.rows().skip(i as int + 1));
            }
            if str_eq(self.rows[i].0.as_str(), key.as_str()) {
                let pair = (self.rows[i].1.clone(), self.rows[i].2.clone());
                out.push(pair);
                proof {
                    assert(out.deep_view() =~= old_out.push(
                        (self.rows()[i as int].1, self.rows()[i as int].2)));
                    assert(groups_in(rest, key@) == seq![(rest[0].1, rest[0].2)] + groups_in(
                        rest.drop_first(), key@));
                    assert(old_out + (seq![(rest[0].1, rest[0].2)] + groups_in(
                        rest.drop_first(), key@)) =~= out.deep_view() + groups_in(
                        rest.drop_first(), key@));
                }
            } else {
                proof {
                    assert(groups_in(rest, key@) == groups_in(rest.drop_first(), key@));
                }
            }
            i = i + 1;
        }
        proof {
            assert(self.rows().skip(self.rows@.len() as int) =~= Seq::<RegistryRow>::empty());
            assert(out.deep_view() + Seq::<(Seq<char>, Seq<char>)>::empty() =~= out.deep_view());
        }
        out
    }
}

/// With no earlier match and a match at `i`, storing overwrites row `i`.
proof fn lemma_saved_match_at(
    rows: Seq<RegistryRow>,
    key: Seq<char>,
    topic: Seq<char>,
    url: Seq<char>,
    i: int,
)
    requires
        0 <= i < rows.len(),
        rows[i].0 == key && rows[i].1 == topic,
        forall|j: int| 0 <= j < i ==> !(rows[j].0 == key && rows[j].1 == topic),
    ensures
        saved(rows, key, topic, url) == rows.update(i, (key, topic, url)),
    decreases rows.len(),
{
    if i == 0 {
        assert(saved(rows, key, topic, url) == seq![(key, topic, url)] + rows.drop_first());
        assert(seq![(key, topic, url)] + rows.drop_first() =~= rows.update(0, (key, topic, url)));
    } else {
        assert(!(rows[0].0 == key && rows[0].1 == topic));
        assert(forall|j: int|
            0 <= j < i - 1 ==> !(#[trigger] rows.drop_first()[j].0 == key
                && rows.drop_first()[j].1 == topic));
        assert(rows.drop_first()[i - 1] == rows[i]);
        lemma_saved_match_at(rows.drop_first(), key, topic, url, i - 1);
        assert(seq![rows[0]] + rows.drop_first().update(i - 1, (key, topic, url)) =~= rows.update(
            i, (key, topic, url)));
    }
}

/// With no matching row at all, storing appends a fresh row.
proof fn lemma_saved_no_match(
    rows: Seq<RegistryRow>,
    key: Seq<char>,
    topic: Seq<char>,
    url: Seq<char>,
)
    requires
        forall|j: int| 0 <= j < rows.len() ==> !(rows[j].0 == key && rows[j].1 == topic),
    ensures
        saved(rows, key, topic, url) == rows.push((key, topic, url)),
    decreases rows.len(),
{
    if rows.len() == 0 {
        assert(saved(rows, key, topic, url) =~= rows.push((key, topic, url)));
    } else {
        assert(forall|j: int|
            0 <= j < rows.drop_first().len() ==> !(#[trigger] rows.drop_first()[j].0 == key
                && rows.drop_first()[j].1 == topic));
        lemma_saved_no_match(rows.drop_first(), key, topic, url);
        assert(seq![rows[0]] + rows.drop_first().push((key, topic, url)) =~= rows.push(
            (key, topic, url)));
    }
}

} // verus!

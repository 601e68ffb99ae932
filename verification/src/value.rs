//! Configuration values: a tree of tables, arrays and scalars.

use vstd::prelude::*;
use crate::text::str_eq;

verus! {

/// What a configuration value holds, as mathematics.
///
/// A table is a map from its keys to its members: the order in which the
/// entries were written does not belong to it.
pub enum Tree {
    String(Seq<char>),
    Integer(int),
    Float(Seq<char>),
    Boolean(bool),
    Datetime(Seq<char>),
    Array(Seq<Tree>),
    Table(Map<Seq<char>, Tree>),
}

impl Tree {
    /// The member of a table under `key`; a value that is no table has none.
    pub open spec fn get(self, key: Seq<char>) -> Option<Tree> {
        match self {
            Tree::Table(members) => if members.contains_key(key) {
                Some(members[key])
            } else {
                None
            },
            _ => None,
        }
    }

    /// The characters of a string; a value that is no string has none.
    pub open spec fn as_str(self) -> Option<Seq<char>> {
        match self {
            Tree::String(s) => Some(s),
            _ => None,
        }
    }

    /// The elements of an array; a value that is no array has none.
    pub open spec fn as_array(self) -> Option<Seq<Tree>> {
        match self {
            Tree::Array(a) => Some(a),
            _ => None,
        }
    }
}

/// A configuration value.
///
/// A table is written as the list of its entries; where a key occurs more
/// than once, the last entry under it is the member. Floats and datetimes
/// are held as the text that stands for them: nothing here computes with
/// them, and text that is no float or no datetime is found out only when
/// the value is written.
#[derive(Debug, PartialEq, Eq)]
pub enum ConfigTree {
    String(String),
    Integer(i64),
    Float(String),
    Boolean(bool),
    Datetime(String),
    Array(Vec<ConfigTree>),
    Table(Vec<(String, ConfigTree)>),
}

/// The place of the last entry under `key`, or -1 where there is none.
pub open spec fn last_under(pairs: Seq<(String, ConfigTree)>, key: Seq<char>) -> int
    decreases pairs.len(),
{
    if pairs.len() == 0 {
        -1
    } else if pairs.last().0@ == key {
        pairs.len() - 1
    } else {
        last_under(pairs.drop_last(), key)
    }
}

/// The tree that a value holds.
pub open spec fn tree(value: ConfigTree) -> Tree
    decreases value,
{
    match value {
        ConfigTree::String(s) => Tree::String(s@),
        ConfigTree::Integer(i) => Tree::Integer(i as int),
        ConfigTree::Float(s) => Tree::Float(s@),
        ConfigTree::Boolean(b) => Tree::Boolean(b),
        ConfigTree::Datetime(s) => Tree::Datetime(s@),
        ConfigTree::Array(a) => Tree::Array(
            Seq::new(
                a@.len(),
                |i: int|
                    if 0 <= i < a@.len() {
                        tree(a@[i])
                    } else {
                        arbitrary()
                    },
            ),
        ),
        ConfigTree::Table(t) => Tree::Table(
            Map::new(
                |key: Seq<char>| last_under(t@, key) >= 0,
                |key: Seq<char>|
                    {
                        let i = last_under(t@, key);
                        if 0 <= i < t@.len() {
                            tree(t@[i].1)
                        } else {
                            arbitrary()
                        }
                    },
            ),
        ),
    }
}

impl View for ConfigTree {
    type V = Tree;

    open spec fn view(&self) -> Tree {
        tree(*self)
    }
}

/// The trees of a sequence of values.
pub open spec fn trees(values: Seq<ConfigTree>) -> Seq<Tree> {
    Seq::new(values.len(), |i: int| values[i]@)
}

/// The members of the table that a list of entries writes: under each key
/// the value of the last entry under it.
pub open spec fn members(pairs: Seq<(String, ConfigTree)>) -> Map<Seq<char>, Tree> {
    Map::new(
        |key: Seq<char>| last_under(pairs, key) >= 0,
        |key: Seq<char>| pairs[last_under(pairs, key)].1@,
    )
}

/// Whether no key occurs twice among the entries.
pub open spec fn distinct_keys(pairs: Seq<(String, ConfigTree)>) -> bool {
    forall|i: int, j: int|
        0 <= i < j < pairs.len() ==> (#[trigger] pairs[i]).0@ != (#[trigger] pairs[j]).0@
}

/// Whether no table of the value, at any depth, holds a key twice: every
/// entry that is written is then a member.
pub open spec fn single_keyed(value: ConfigTree) -> bool
    decreases value,
{
    match value {
        ConfigTree::Array(a) => forall|i: int| 0 <= i < a@.len() ==> single_keyed(#[trigger] a@[i]),
        ConfigTree::Table(t) => distinct_keys(t@) && forall|i: int|
            0 <= i < t@.len() ==> single_keyed((#[trigger] t@[i]).1),
        _ => true,
    }
}

/// The last entry under a key is an entry under that key, and none comes
/// after it; without one, no entry is under the key.
pub proof fn lemma_last_under(pairs: Seq<(String, ConfigTree)>, key: Seq<char>)
    ensures
        -1 <= last_under(pairs, key) < pairs.len(),
        last_under(pairs, key) >= 0 ==> pairs[last_under(pairs, key)].0@ == key,
        forall|j: int| last_under(pairs, key) < j < pairs.len() ==> (#[trigger] pairs[j]).0@ != key,
    decreases pairs.len(),
{
    if pairs.len() > 0 && pairs.last().0@ != key {
        let front = pairs.drop_last();
        lemma_last_under(front, key);
        assert forall|j: int| last_under(pairs, key) < j < pairs.len() implies (
        #[trigger] pairs[j]).0@ != key by {
            if j < front.len() {
                assert(pairs[j] == front[j]);
            }
        }
        if last_under(front, key) >= 0 {
            assert(pairs[last_under(front, key)] == front[last_under(front, key)]);
        }
    }
}

/// The view of an array is the array of its elements' views.
pub proof fn lemma_view_array(a: Vec<ConfigTree>)
    ensures
        ConfigTree::Array(a)@ == Tree::Array(trees(a@)),
{
    assert(ConfigTree::Array(a)@->Array_0 =~= trees(a@));
}

/// The view of a table is the map of its members.
pub proof fn lemma_view_table(t: Vec<(String, ConfigTree)>)
    ensures
        ConfigTree::Table(t)@ == Tree::Table(members(t@)),
{
    let shown = ConfigTree::Table(t)@->Table_0;
    assert forall|key: Seq<char>| shown.contains_key(key) implies shown[key] == members(t@)[key] by {
        lemma_last_under(t@, key);
    }
    assert(shown =~= members(t@));
}

/// No entries write the empty table.
pub proof fn lemma_members_none()
    ensures
        members(Seq::empty()) == Map::<Seq<char>, Tree>::empty(),
{
    assert(members(Seq::empty()) =~= Map::<Seq<char>, Tree>::empty());
}

/// An entry written after others puts its value under its key, in the place
/// of what was there, and leaves the other members as they were.
pub proof fn lemma_members_push(pairs: Seq<(String, ConfigTree)>, entry: (String, ConfigTree))
    ensures
        members(pairs.push(entry)) == members(pairs).insert(entry.0@, entry.1@),
{
    let more = pairs.push(entry);
    assert(more.drop_last() =~= pairs);
    assert(more.last() == entry);
    assert forall|key: Seq<char>| #[trigger]
        members(more).contains_key(key) == members(pairs).insert(
            entry.0@,
            entry.1@,
        ).contains_key(key) by {
        lemma_last_under(pairs, key);
    }
    assert forall|key: Seq<char>| #[trigger] members(more).contains_key(key) implies members(
        more,
    )[key] == members(pairs).insert(entry.0@, entry.1@)[key] by {
        lemma_last_under(pairs, key);
        if entry.0@ != key {
            assert(more[last_under(pairs, key)] == pairs[last_under(pairs, key)]);
        }
    }
    assert(members(more) =~= members(pairs).insert(entry.0@, entry.1@));
}

/// Two entries under different keys may change places: the table is the
/// same.
pub proof fn lemma_entries_commute(
    pairs: Seq<(String, ConfigTree)>,
    first: (String, ConfigTree),
    second: (String, ConfigTree),
)
    requires
        first.0@ != second.0@,
    ensures
        members(pairs.push(first).push(second)) == members(pairs.push(second).push(first)),
{
    lemma_members_push(pairs, first);
    lemma_members_push(pairs.push(first), second);
    lemma_members_push(pairs, second);
    lemma_members_push(pairs.push(second), first);
    assert(members(pairs).insert(first.0@, first.1@).insert(second.0@, second.1@) =~= members(
        pairs,
    ).insert(second.0@, second.1@).insert(first.0@, first.1@));
}

impl ConfigTree {
    /// The string that the value is, if it is one.
    pub fn as_str(&self) -> (found: Option<&str>)
        ensures
            match found {
                Some(s) => self@.as_str() == Some(s@),
                None => self@.as_str() is None,
            },
    {
        match self {
            ConfigTree::String(s) => Some(s.as_str()),
            _ => None,
        }
    }

    /// The elements of the array that the value is, if it is one.
    pub fn as_array(&self) -> (found: Option<&Vec<ConfigTree>>)
        ensures
            match found {
                Some(a) => self@.as_array() == Some(trees(a@)),
                None => self@.as_array() is None,
            },
    {
        match self {
            ConfigTree::Array(a) => {
                proof {
                    lemma_view_array(*a);
                }
                Some(a)
            },
            _ => None,
        }
    }

    /// A copy of the value.
    pub fn duplicate(&self) -> (copy: ConfigTree)
        ensures
            copy@ == self@,
        decreases self,
    {
        match self {
            ConfigTree::String(s) => ConfigTree::String(s.clone()),
            ConfigTree::Integer(i) => ConfigTree::Integer(*i),
            ConfigTree::Float(s) => ConfigTree::Float(s.clone()),
            ConfigTree::Boolean(b) => ConfigTree::Boolean(*b),
            ConfigTree::Datetime(s) => ConfigTree::Datetime(s.clone()),
            ConfigTree::Array(a) => {
                let mut copy: Vec<ConfigTree> = Vec::new();
                let mut i: usize = 0;
                while i < a.len()
                    invariant
                        *self == ConfigTree::Array(*a),
                        i <= a.len(),
                        copy@.len() == i,
                        forall|j: int| 0 <= j < i ==> (#[trigger] copy@[j])@ == a@[j]@,
                    decreases a.len() - i,
                {
                    proof {
                        assert(self->Array_0 == *a);
                        assert(decreases_to!(*self => self->Array_0));
                        assert(decreases_to!(*a => a[i as int]));
                    }
                    copy.push(a[i].duplicate());
                    i += 1;
                }
                proof {
                    lemma_view_array(*a);
                    lemma_view_array(copy);
                    assert(trees(copy@) =~= trees(a@));
                }
                ConfigTree::Array(copy)
            },
            ConfigTree::Table(t) => {
                let mut copy: Vec<(String, ConfigTree)> = Vec::new();
                let mut i: usize = 0;
                proof {
                    lemma_members_none();
                    assert(t@.take(0) =~= Seq::empty());
                    assert(copy@ =~= Seq::empty());
                }
                while i < t.len()
                    invariant
                        *self == ConfigTree::Table(*t),
                        i <= t.len(),
                        members(copy@) == members(t@.take(i as int)),
                    decreases t.len() - i,
                {
                    proof {
                        assert(self->Table_0 == *t);
                        assert(decreases_to!(*self => self->Table_0));
                        assert(decreases_to!(*t => t[i as int]));
                        assert(decreases_to!(t[i as int] => t[i as int].1));
                    }
                    let ghost before = copy@;
                    let entry = (t[i].0.clone(), t[i].1.duplicate());
                    proof {
                        lemma_members_push(before, entry);
                        lemma_members_push(t@.take(i as int), t@[i as int]);
                        assert(t@.take(i + 1) =~= t@.take(i as int).push(t@[i as int]));
                    }
                    copy.push(entry);
                    i += 1;
                }
                proof {
                    assert(t@.take(t.len() as int) =~= t@);
                    lemma_view_table(*t);
                    lemma_view_table(copy);
                }
                ConfigTree::Table(copy)
            },
        }
    }

    /// The member under `key` of the table that the value is.
    pub fn get(&self, key: &str) -> (found: Option<&ConfigTree>)
        ensures
            match found {
                Some(v) => self@.get(key@) == Some(v@),
                None => self@.get(key@) is None,
            },
    {
        match self {
            ConfigTree::Table(t) => {
                proof {
                    lemma_view_table(*t);
                    lemma_last_under(t@, key@);
                }
                let mut i: usize = t.len();
                while i > 0
                    invariant
                        i <= t.len(),
                        self@ == Tree::Table(members(t@)),
                        forall|j: int| i <= j < t.len() ==> (#[trigger] t@[j]).0@ != key@,
                    decreases i,
                {
                    i -= 1;
                    if str_eq(t[i].0.as_str(), key) {
                        proof {
                            lemma_last_under(t@, key@);
                            assert(t@[i as int].0@ == key@);
                            assert(last_under(t@, key@) == i);
                        }
                        return Some(&t[i].1);
                    }
                }
                proof {
                    lemma_last_under(t@, key@);
                    if last_under(t@, key@) >= 0 {
                        assert(t@[last_under(t@, key@)].0@ == key@);
                    }
                }
                None
            },
            _ => None,
        }
    }
}

/// Whether a key is the one to leave out.
pub open spec fn left_out(skip: Option<&str>, key: Seq<char>) -> bool {
    match skip {
        Some(k) => k@ == key,
        None => false,
    }
}

/// Whether the entry at `at` is the last one under its key.
fn is_last(t: &Vec<(String, ConfigTree)>, at: usize) -> (last: bool)
    requires
        at < t.len(),
    ensures
        last == (last_under(t@, t@[at as int].0@) == at),
{
    let mut j: usize = at + 1;
    while j < t.len()
        invariant
            at < j <= t.len(),
            forall|k: int| at < k < j ==> (#[trigger] t@[k]).0@ != t@[at as int].0@,
        decreases t.len() - j,
    {
        if str_eq(t[j].0.as_str(), t[at].0.as_str()) {
            proof {
                lemma_last_under(t@, t@[at as int].0@);
            }
            return false;
        }
        j += 1;
    }
    proof {
        lemma_last_under(t@, t@[at as int].0@);
    }
    true
}

/// The entries that are members, each once and with no key twice at any
/// depth below: an entry that a later one shadows is dropped, and so is
/// every entry under `skip`.
pub fn live_entries(t: &Vec<(String, ConfigTree)>, skip: Option<&str>) -> (out: Vec<
    (String, ConfigTree),
>)
    ensures
        members(out@) == match skip {
            Some(k) => members(t@).remove(k@),
            None => members(t@),
        },
        distinct_keys(out@),
        forall|i: int| 0 <= i < out@.len() ==> single_keyed((#[trigger] out@[i]).1),
    decreases t,
{
    let mut out: Vec<(String, ConfigTree)> = Vec::new();
    let mut i: usize = 0;
    proof {
        lemma_members_none();
        assert(out@ =~= Seq::empty());
    }
    while i < t.len()
        invariant
            i <= t.len(),
            distinct_keys(out@),
            forall|a: int| 0 <= a < out@.len() ==> single_keyed((#[trigger] out@[a]).1),
            forall|a: int| 0 <= a < out@.len() ==> last_under(t@, (#[trigger] out@[a]).0@) < i,
            forall|key: Seq<char>| #[trigger]
                members(out@).contains_key(key) <==> (0 <= last_under(t@, key) < i && !left_out(
                    skip,
                    key,
                )),
            forall|key: Seq<char>| #[trigger]
                members(out@).contains_key(key) ==> members(out@)[key] == t@[last_under(
                    t@,
                    key,
                )].1@,
        decreases t.len() - i,
    {
        let ghost before = out@;
        let ghost here = t@[i as int].0@;
        let skipped = match skip {
            Some(k) => str_eq(t[i].0.as_str(), k),
            None => false,
        };
        if !skipped && is_last(t, i) {
            proof {
                assert(decreases_to!(*t => t[i as int]));
                assert(decreases_to!(t[i as int] => t[i as int].1));
            }
            let entry = (t[i].0.clone(), t[i].1.normalized());
            proof {
                lemma_members_push(before, entry);
            }
            out.push(entry);
            proof {
                assert forall|key: Seq<char>| #[trigger]
                    members(out@).contains_key(key) <==> (0 <= last_under(t@, key) < i + 1
                        && !left_out(skip, key)) by {
                    lemma_last_under(t@, key);
                }
                assert forall|a: int, b: int| 0 <= a < b < out@.len() implies (
                #[trigger] out@[a]).0@ != (#[trigger] out@[b]).0@ by {
                    if b == out@.len() - 1 {
                        assert(out@[a] == before[a]);
                    } else {
                        assert(out@[a] == before[a] && out@[b] == before[b]);
                    }
                }
                assert forall|a: int| 0 <= a < out@.len() implies single_keyed(
                    (#[trigger] out@[a]).1,
                ) by {
                    if a < before.len() {
                        assert(out@[a] == before[a]);
                    }
                }
                assert forall|a: int| 0 <= a < out@.len() implies last_under(
                    t@,
                    (#[trigger] out@[a]).0@,
                ) < i + 1 by {
                    if a < before.len() {
                        assert(out@[a] == before[a]);
                    }
                }
            }
        } else {
            proof {
                assert forall|key: Seq<char>| #[trigger]
                    members(out@).contains_key(key) <==> (0 <= last_under(t@, key) < i + 1
                        && !left_out(skip, key)) by {
                    lemma_last_under(t@, key);
                }
            }
        }
        i += 1;
    }
    proof {
        let wanted = match skip {
            Some(k) => members(t@).remove(k@),
            None => members(t@),
        };
        assert forall|key: Seq<char>| #[trigger]
            members(out@).contains_key(key) == wanted.contains_key(key) by {
            lemma_last_under(t@, key);
        }
        assert(members(out@) =~= wanted);
    }
    out
}

impl ConfigTree {
    /// The same value with every table written once per key: an entry that
    /// a later one shadows is dropped, at every depth.
    pub fn normalized(&self) -> (plain: ConfigTree)
        ensures
            plain@ == self@,
            single_keyed(plain),
        decreases self,
    {
        match self {
            ConfigTree::String(s) => ConfigTree::String(s.clone()),
            ConfigTree::Integer(i) => ConfigTree::Integer(*i),
            ConfigTree::Float(s) => ConfigTree::Float(s.clone()),
            ConfigTree::Boolean(b) => ConfigTree::Boolean(*b),
            ConfigTree::Datetime(s) => ConfigTree::Datetime(s.clone()),
            ConfigTree::Array(a) => {
                let mut plain: Vec<ConfigTree> = Vec::new();
                let mut i: usize = 0;
                while i < a.len()
                    invariant
                        *self == ConfigTree::Array(*a),
                        i <= a.len(),
                        plain@.len() == i,
                        forall|j: int| 0 <= j < i ==> (#[trigger] plain@[j])@ == a@[j]@,
                        forall|j: int| 0 <= j < i ==> single_keyed(#[trigger] plain@[j]),
                    decreases a.len() - i,
                {
                    proof {
                        assert(self->Array_0 == *a);
                        assert(decreases_to!(*self => self->Array_0));
                        assert(decreases_to!(*a => a[i as int]));
                    }
                    plain.push(a[i].normalized());
                    i += 1;
                }
                proof {
                    lemma_view_array(*a);
                    lemma_view_array(plain);
                    assert(trees(plain@) =~= trees(a@));
                }
                ConfigTree::Array(plain)
            },
            ConfigTree::Table(t) => {
                proof {
                    assert(self->Table_0 == *t);
                    assert(decreases_to!(*self => self->Table_0));
                }
                let plain = live_entries(t, None);
                proof {
                    lemma_view_table(*t);
                    lemma_view_table(plain);
                }
                ConfigTree::Table(plain)
            },
        }
    }
}

impl Clone for ConfigTree {
    fn clone(&self) -> (copy: ConfigTree)
        ensures
            copy@ == self@,
    {
        self.duplicate()
    }
}

/// The outside type that the `toml` crate holds a value in.
#[verifier::external_type_specification]
#[verifier::external_body]
pub struct ExTomlValue(toml::Value);

/// The TOML text of a tree: what `toml::to_string` writes for the value of
/// the `toml` crate that holds the tree; `None` for a tree that has no such
/// value or that the crate cannot write.
pub uninterp spec fn toml_text(tree: Tree) -> Option<Seq<char>>;

/// The value of the `toml` crate that holds what `value` holds.
///
/// Trusted: builds a `toml::Value` variant by variant. The entries of a
/// table go into the crate's map with `Map::insert`. A float or a datetime
/// is parsed from its text; where one does not parse, there is no value.
/// Nothing is claimed of the result here.
#[verifier::external_body]
fn to_toml(value: &ConfigTree) -> Option<toml::Value> {
    Some(match value {
        ConfigTree::String(s) => s.clone().into(),
        ConfigTree::Integer(i) => (*i).into(),
        ConfigTree::Boolean(b) => (*b).into(),
        ConfigTree::Float(s) => toml::Value::Float(s.parse().ok()?),
        ConfigTree::Datetime(s) => toml::Value::Datetime(s.parse().ok()?),
        ConfigTree::Array(a) => toml::Value::Array(a.iter().map(to_toml).collect::<Option<_>>()?),
        ConfigTree::Table(t) => {
            let mut table = toml::value::Table::new();
            for e in t { table.insert(e.0.clone(), to_toml(&e.1)?); }
            table.into()
        },
    })
}

/// Writes `value` as TOML text.
///
/// Trusted: calls `toml::to_string` on the value built by `to_toml`; the
/// serialiser's error, and a value that cannot be built, are `None`. The
/// contract only gives the text its name. It may do so because no table of
/// `value` holds a key twice: every entry is then a member, so each is
/// converted and none is lost, and the crate's map, which keeps its keys
/// sorted, forgets the order in which they were put in. (The crate has
/// another map that keeps that order; it is not asked for here.)
#[verifier::external_body]
pub(crate) fn render(value: &ConfigTree) -> (text: Option<String>)
    requires
        single_keyed(*value),
    ensures
        match text {
            Some(t) => toml_text(value@) == Some(t@),
            None => toml_text(value@) is None,
        },
{
    toml::to_string(&to_toml(value)?).ok()
}

} // verus!

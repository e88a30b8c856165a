//! A registry mapping heterogeneous keys to type-erased [`Cowboy`] cells.
//!
//! A [`Key`] pairs a runtime kind with a value of that kind: two keys match
//! only when both the kinds and the values agree, so an integer key and a
//! text key spelling the same digits never collide. A registered cell is
//! stored behind a runtime tag ([`Holster`]); retrieval checks the tag
//! against the requested value type and hands back a new handle to the
//! same slot on success.

use crate::Cowboy;
use vstd::prelude::*;

verus! {

/// A registry key: a value of one of the supported key kinds. Keys of
/// different kinds are never equal, whatever their payloads.
pub enum Key {
    /// A signed integer key.
    Int(i64),
    /// An unsigned integer key.
    Nat(u64),
    /// A boolean key.
    Flag(bool),
    /// A text key.
    Text(String),
}

/// The mathematical value of a [`Key`]: its kind together with its payload.
pub enum KeyVal {
    Int(int),
    Nat(nat),
    Flag(bool),
    Text(Seq<char>),
}

impl View for Key {
    type V = KeyVal;

    open spec fn view(&self) -> KeyVal {
        match self {
            Key::Int(i) => KeyVal::Int(*i as int),
            Key::Nat(n) => KeyVal::Nat(*n as nat),
            Key::Flag(b) => KeyVal::Flag(*b),
            Key::Text(s) => KeyVal::Text(s@),
        }
    }
}

/// Decide key equality: true exactly when the kinds match and the payloads
/// are equal under that kind's equality.
pub fn key_eq(a: &Key, b: &Key) -> (r: bool)
    ensures
        r == (a@ == b@),
{
    match a {
        Key::Int(x) => match b {
            Key::Int(y) => *x == *y,
            _ => false,
        },
        Key::Nat(x) => match b {
            Key::Nat(y) => *x == *y,
            _ => false,
        },
        Key::Flag(x) => match b {
            Key::Flag(y) => *x == *y,
            _ => false,
        },
        Key::Text(x) => match b {
            Key::Text(y) => *x == *y,
            _ => false,
        },
    }
}

/// Keys of different kinds never compare equal, even when their payloads
/// would be written the same way: the integer key `42` and a text key
/// holding the digits `42` stay distinct.
pub proof fn lemma_key_kind_isolation(i: i64, s: String)
    ensures
        Key::Int(i)@ != Key::Text(s)@,
{
}

/// A registered cell behind its runtime tag: the variant records the value
/// type the cell was stored as.
pub enum Holster {
    /// A cell of signed integers.
    Int(Cowboy<i64>),
    /// A cell of unsigned integers.
    Nat(Cowboy<u64>),
    /// A cell of booleans.
    Flag(Cowboy<bool>),
    /// A cell of text.
    Text(Cowboy<String>),
}

/// A value type the registry can store cells of. The trait fixes how a cell
/// is tagged for storage and how the tag is checked on retrieval.
pub trait Holstered: Sized {
    /// The tagged form a cell of this type is stored as.
    spec fn holstered(cell: Cowboy<Self>) -> Holster;

    /// Whether a stored holster carries a cell of this type.
    spec fn fits(h: Holster) -> bool;

    /// The cell inside a holster of this type.
    spec fn cell_of(h: Holster) -> Cowboy<Self>;

    /// Tagging a cell always yields a holster that fits this type and
    /// carries that very cell.
    proof fn lemma_holster_round_trip(cell: Cowboy<Self>)
        ensures
            Self::fits(Self::holstered(cell)),
            Self::cell_of(Self::holstered(cell)) == cell,
    ;

    /// Tag a cell for storage.
    fn holster(cell: Cowboy<Self>) -> (h: Holster)
        ensures
            h == Self::holstered(cell),
    ;

    /// The runtime type check: a new handle to the stored slot when the tag
    /// is this type's, and nothing otherwise.
    fn unholster(h: &Holster) -> (r: Option<Cowboy<Self>>)
        ensures
            r is Some <==> Self::fits(*h),
            r matches Some(cell) ==> cell == Self::cell_of(*h),
    ;
}

impl Holstered for i64 {
    open spec fn holstered(cell: Cowboy<i64>) -> Holster {
        Holster::Int(cell)
    }

    open spec fn fits(h: Holster) -> bool {
        h is Int
    }

    open spec fn cell_of(h: Holster) -> Cowboy<i64> {
        h->Int_0
    }

    proof fn lemma_holster_round_trip(cell: Cowboy<i64>) {
    }

    fn holster(cell: Cowboy<i64>) -> (h: Holster) {
        Holster::Int(cell)
    }

    fn unholster(h: &Holster) -> (r: Option<Cowboy<i64>>) {
        match h {
            Holster::Int(cell) => Some(cell.clone()),
            _ => None,
        }
    }
}

impl Holstered for u64 {
    open spec fn holstered(cell: Cowboy<u64>) -> Holster {
        Holster::Nat(cell)
    }

    open spec fn fits(h: Holster) -> bool {
        h is Nat
    }

    open spec fn cell_of(h: Holster) -> Cowboy<u64> {
        h->Nat_0
    }

    proof fn lemma_holster_round_trip(cell: Cowboy<u64>) {
    }

    fn holster(cell: Cowboy<u64>) -> (h: Holster) {
        Holster::Nat(cell)
    }

    fn unholster(h: &Holster) -> (r: Option<Cowboy<u64>>) {
        match h {
            Holster::Nat(cell) => Some(cell.clone()),
            _ => None,
        }
    }
}

impl Holstered for bool {
    open spec fn holstered(cell: Cowboy<bool>) -> Holster {
        Holster::Flag(cell)
    }

    open spec fn fits(h: Holster) -> bool {
        h is Flag
    }

    open spec fn cell_of(h: Holster) -> Cowboy<bool> {
        h->Flag_0
    }

    proof fn lemma_holster_round_trip(cell: Cowboy<bool>) {
    }

    fn holster(cell: Cowboy<bool>) -> (h: Holster) {
        Holster::Flag(cell)
    }

    fn unholster(h: &Holster) -> (r: Option<Cowboy<bool>>) {
        match h {
            Holster::Flag(cell) => Some(cell.clone()),
            _ => None,
        }
    }
}

impl Holstered for String {
    open spec fn holstered(cell: Cowboy<String>) -> Holster {
        Holster::Text(cell)
    }

    open spec fn fits(h: Holster) -> bool {
        h is Text
    }

    open spec fn cell_of(h: Holster) -> Cowboy<String> {
        h->Text_0
    }

    proof fn lemma_holster_round_trip(cell: Cowboy<String>) {
    }

    fn holster(cell: Cowboy<String>) -> (h: Holster) {
        Holster::Text(cell)
    }

    fn unholster(h: &Holster) -> (r: Option<Cowboy<String>>) {
        match h {
            Holster::Text(cell) => Some(cell.clone()),
            _ => None,
        }
    }
}

/// Why a lookup failed: no entry under the key, or an entry whose stored
/// value type is not the requested one.
#[derive(Clone, Copy, Debug, PartialEq, Eq, Structural)]
pub enum LookupError {
    /// No entry matches the key.
    Missing,
    /// An entry matches the key, but its cell was stored as another type.
    WrongType,
}

/// The registry: a table from type-erased keys to tagged cells. Its
/// mathematical content is a map from key values to stored holsters.
pub struct Sheriff {
    entries: Vec<(Key, Holster)>,
}

/// No two entries share a key value.
spec fn unique_keys(s: Seq<(Key, Holster)>) -> bool {
    forall|p: int, q: int| 0 <= p < q < s.len() ==> s[p].0@ != s[q].0@
}

/// The map an entry table stands for; later entries shadow earlier ones.
spec fn map_of(s: Seq<(Key, Holster)>) -> Map<KeyVal, Holster>
    decreases s.len(),
{
    if s.len() == 0 {
        Map::empty()
    } else {
        map_of(s.drop_last()).insert(s.last().0@, s.last().1)
    }
}

proof fn lemma_map_of_contains(s: Seq<(Key, Holster)>, k: KeyVal)
    ensures
        map_of(s).contains_key(k) <==> exists|i: int| 0 <= i < s.len() && s[i].0@ == k,
    decreases s.len(),
{
    if s.len() > 0 {
        lemma_map_of_contains(s.drop_last(), k);
        if map_of(s).contains_key(k) && s.last().0@ != k {
            let i = choose|i: int| 0 <= i < s.drop_last().len() && s.drop_last()[i].0@ == k;
            assert(s[i].0@ == k);
        }
        if exists|i: int| 0 <= i < s.len() && s[i].0@ == k {
            let i = choose|i: int| 0 <= i < s.len() && s[i].0@ == k;
            if i < s.len() - 1 {
                assert(s.drop_last()[i].0@ == k);
            }
        }
    }
}

proof fn lemma_map_of_index(s: Seq<(Key, Holster)>, i: int)
    requires
        unique_keys(s),
        0 <= i < s.len(),
    ensures
        map_of(s).contains_key(s[i].0@),
        map_of(s)[s[i].0@] == s[i].1,
    decreases s.len(),
{
    if i < s.len() - 1 {
        assert(unique_keys(s.drop_last()));
        lemma_map_of_index(s.drop_last(), i);
        assert(s.drop_last()[i] == s[i]);
        assert(s.last().0@ != s[i].0@);
    }
}

proof fn lemma_unique_remove(s: Seq<(Key, Holster)>, i: int)
    requires
        unique_keys(s),
        0 <= i < s.len(),
    ensures
        unique_keys(s.remove(i)),
{
    assert forall|p: int, q: int|
        0 <= p < q < s.remove(i).len() implies s.remove(i)[p].0@ != s.remove(i)[q].0@ by {
        let p0 = if p < i { p } else { p + 1 };
        let q0 = if q < i { q } else { q + 1 };
        assert(s.remove(i)[p] == s[p0]);
        assert(s.remove(i)[q] == s[q0]);
    }
}

proof fn lemma_unique_push(s: Seq<(Key, Holster)>, e: (Key, Holster))
    requires
        unique_keys(s),
        forall|j: int| 0 <= j < s.len() ==> s[j].0@ != e.0@,
    ensures
        unique_keys(s.push(e)),
{
    assert forall|p: int, q: int|
        0 <= p < q < s.push(e).len() implies s.push(e)[p].0@ != s.push(e)[q].0@ by {
        assert(s.push(e)[p] == s[p]);
        if q < s.len() {
            assert(s.push(e)[q] == s[q]);
        } else {
            assert(s.push(e)[q] == e);
        }
    }
}

proof fn lemma_map_of_push(s: Seq<(Key, Holster)>, e: (Key, Holster))
    ensures
        map_of(s.push(e)) == map_of(s).insert(e.0@, e.1),
{
    assert(s.push(e).drop_last() =~= s);
    assert(s.push(e).last() == e);
}

proof fn lemma_map_of_remove(s: Seq<(Key, Holster)>, i: int)
    requires
        unique_keys(s),
        0 <= i < s.len(),
    ensures
        map_of(s.remove(i)) == map_of(s).remove(s[i].0@),
    decreases s.len(),
{
    let k = s[i].0@;
    if i == s.len() - 1 {
        assert(s.remove(i) =~= s.drop_last());
        lemma_map_of_contains(s.drop_last(), k);
        assert forall|j: int| 0 <= j < s.drop_last().len() implies s.drop_last()[j].0@ != k by {
            assert(s.drop_last()[j] == s[j]);
        }
        assert(!map_of(s.drop_last()).contains_key(k));
        assert(map_of(s.drop_last()) =~= map_of(s.drop_last()).insert(k, s[i].1).remove(k));
    } else {
        let dl = s.drop_last();
        assert(unique_keys(dl));
        lemma_map_of_remove(dl, i);
        assert(s.remove(i).drop_last() =~= dl.remove(i));
        assert(s.remove(i).last() == s.last());
        assert(map_of(s.remove(i)) == map_of(dl.remove(i)).insert(s.last().0@, s.last().1));
        assert(s.last().0@ != k);
        assert(map_of(dl).remove(k).insert(s.last().0@, s.last().1) =~= map_of(dl).insert(
            s.last().0@,
            s.last().1,
        ).remove(k));
    }
}

impl View for Sheriff {
    type V = Map<KeyVal, Holster>;

    closed spec fn view(&self) -> Map<KeyVal, Holster> {
        map_of(self.entries@)
    }
}

impl Sheriff {
    /// The registry's structural invariant: no two entries share a key value.
    pub closed spec fn wf(&self) -> bool {
        unique_keys(self.entries@)
    }

    /// An empty registry.
    pub fn new() -> (s: Sheriff)
        ensures
            s.wf(),
            s@ == Map::<KeyVal, Holster>::empty(),
    {
        Sheriff { entries: Vec::new() }
    }

    /// True exactly when an entry with an equal key (same kind, equal payload)
    /// is registered.
    pub fn contains(&self, key: &Key) -> (present: bool)
        requires
            self.wf(),
        ensures
            present == self@.contains_key(key@),
    {
        let mut i: usize = 0;
        while i < self.entries.len()
            invariant
                i <= self.entries@.len(),
                forall|j: int| 0 <= j < i ==> self.entries@[j].0@ != key@,
            decreases self.entries@.len() - i,
        {
            if key_eq(&self.entries[i].0, key) {
                proof {
                    assert(self.entries@[i as int].0@ == key@);
                    lemma_map_of_contains(self.entries@, key@);
                }
                return true;
            }
            i += 1;
        }
        proof {
            lemma_map_of_contains(self.entries@, key@);
        }
        false
    }

    /// Remove the entry under `key`, if any, and say whether one was there.
    /// Removing an absent key is not an error: it returns `false` and leaves
    /// the registry unchanged.
    pub fn remove(&mut self, key: &Key) -> (removed: bool)
        requires
            old(self).wf(),
        ensures
            final(self).wf(),
            removed == old(self)@.contains_key(key@),
            final(self)@ == old(self)@.remove(key@),
    {
        let mut i: usize = 0;
        while i < self.entries.len()
            invariant
                *self == *old(self),
                old(self).wf(),
                i <= self.entries@.len(),
                forall|j: int| 0 <= j < i ==> self.entries@[j].0@ != key@,
            decreases self.entries@.len() - i,
        {
            if key_eq(&self.entries[i].0, key) {
                proof {
                    assert(self.entries@[i as int].0@ == key@);
                    lemma_map_of_contains(self.entries@, key@);
                    lemma_map_of_remove(self.entries@, i as int);
                    lemma_unique_remove(self.entries@, i as int);
                }
                self.entries.remove(i);
                return true;
            }
            i += 1;
        }
        proof {
            lemma_map_of_contains(self.entries@, key@);
            assert(old(self)@ =~= old(self)@.remove(key@));
        }
        false
    }

    /// Insert or replace: afterwards the registry maps `key` to the tagged
    /// form of `cell`. The registry keeps its own handle to the cell's slot;
    /// the caller's other handles still share it.
    pub fn register<T: Holstered>(&mut self, key: Key, cell: Cowboy<T>)
        requires
            old(self).wf(),
        ensures
            final(self).wf(),
            final(self)@ == old(self)@.insert(key@, T::holstered(cell)),
    {
        let ghost k = key@;
        let ghost target = T::holstered(cell);
        let _ = self.remove(&key);
        proof {
            lemma_map_of_contains(self.entries@, k);
            lemma_map_of_push(self.entries@, (key, T::holstered(cell)));
            lemma_unique_push(self.entries@, (key, T::holstered(cell)));
        }
        let h = T::holster(cell);
        self.entries.push((key, h));
        proof {
            assert(old(self)@.remove(k).insert(k, target) =~= old(self)@.insert(k, target));
        }
    }

    /// Look the key up and check the stored tag against the requested value
    /// type: a new handle to the registered slot when both match, and
    /// otherwise an error saying whether the key was missing or the entry
    /// was stored as another type.
    pub fn get<T: Holstered>(&self, key: &Key) -> (r: Result<Cowboy<T>, LookupError>)
        requires
            self.wf(),
        ensures
            match r {
                Ok(cell) => self@.contains_key(key@) && T::fits(self@[key@]) && cell
                    == T::cell_of(self@[key@]),
                Err(e) => (e == LookupError::Missing <==> !self@.contains_key(key@)) && (e
                    == LookupError::WrongType <==> self@.contains_key(key@) && !T::fits(
                    self@[key@],
                )),
            },
    {
        let mut i: usize = 0;
        while i < self.entries.len()
            invariant
                self.wf(),
                i <= self.entries@.len(),
                forall|j: int| 0 <= j < i ==> self.entries@[j].0@ != key@,
            decreases self.entries@.len() - i,
        {
            if key_eq(&self.entries[i].0, key) {
                proof {
                    assert(self.entries@[i as int].0@ == key@);
                    lemma_map_of_index(self.entries@, i as int);
                }
                return match T::unholster(&self.entries[i].1) {
                    Some(cell) => Ok(cell),
                    None => Err(LookupError::WrongType),
                };
            }
            i += 1;
        }
        proof {
            lemma_map_of_contains(self.entries@, key@);
        }
        Err(LookupError::Missing)
    }
}

/// Registering a cell and looking the same key up yields that very cell:
/// the stored holster fits the requested type and unwraps to the handle
/// that was registered.
pub proof fn lemma_register_round_trip<T: Holstered>(
    m: Map<KeyVal, Holster>,
    k: KeyVal,
    cell: Cowboy<T>,
)
    ensures
        m.insert(k, T::holstered(cell)).contains_key(k),
        T::fits(m.insert(k, T::holstered(cell))[k]),
        T::cell_of(m.insert(k, T::holstered(cell))[k]) == cell,
{
    T::lemma_holster_round_trip(cell);
}

/// Re-registration under an equal key is last-write-wins: the second
/// registration fully replaces the first.
pub proof fn lemma_reregister_last_wins(
    m: Map<KeyVal, Holster>,
    k: KeyVal,
    first: Holster,
    second: Holster,
)
    ensures
        m.insert(k, first).insert(k, second) == m.insert(k, second),
{
    assert(m.insert(k, first).insert(k, second) =~= m.insert(k, second));
}

/// After a removal the key is gone; removing an absent key changes nothing.
pub proof fn lemma_remove_then_absent(m: Map<KeyVal, Holster>, k: KeyVal)
    ensures
        !m.remove(k).contains_key(k),
        !m.contains_key(k) ==> m.remove(k) == m,
{
    if !m.contains_key(k) {
        assert(m.remove(k) =~= m);
    }
}

} // verus!

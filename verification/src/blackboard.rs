use vstd::prelude::*;

verus! {

/// A value a blackboard slot can hold. `Fixed` is a fixed-point scalar whose
/// integer stores the real value times 1000, giving a resolution of 0.001.
#[derive(Copy, Clone, Debug, PartialEq, Eq, Structural)]
pub enum BlackboardValue {
    Int(i32),
    Fixed(i32),
    Bool(bool),
    Entity(u32),
    Vec2(i32, i32),
}

/// `r` is the floor of the square root of `n`.
pub open spec fn is_sqrt_floor(n: int, r: int) -> bool {
    0 <= r && r * r <= n && n < (r + 1) * (r + 1)
}

/// The floor of the square root of a non-negative integer.
pub open spec fn sqrt_floor(n: int) -> int {
    choose|r: int| is_sqrt_floor(n, r)
}

/// Two floors of the same square root are the same number.
pub proof fn lemma_sqrt_floor_unique(n: int, a: int, b: int)
    requires
        is_sqrt_floor(n, a),
        is_sqrt_floor(n, b),
    ensures
        a == b,
{
    if a < b {
        assert((a + 1) * (a + 1) <= b * b) by (nonlinear_arith)
            requires
                0 <= a,
                a < b,
        ;
    }
    if b < a {
        assert((b + 1) * (b + 1) <= a * a) by (nonlinear_arith)
            requires
                0 <= b,
                b < a,
        ;
    }
}

/// Every non-negative integer has a square-root floor, so `sqrt_floor`
/// denotes it.
pub proof fn lemma_sqrt_floor_exists(n: int)
    requires
        n >= 0,
    ensures
        is_sqrt_floor(n, sqrt_floor(n)),
    decreases n,
{
    if n == 0 {
        assert(is_sqrt_floor(0, 0));
    } else {
        lemma_sqrt_floor_exists(n - 1);
        let r = sqrt_floor(n - 1);
        if n < (r + 1) * (r + 1) {
            assert(is_sqrt_floor(n, r));
        } else {
            assert(n == (r + 1) * (r + 1));
            assert((r + 1) * (r + 1) < (r + 2) * (r + 2)) by (nonlinear_arith)
                requires
                    r >= 0,
            ;
            assert(is_sqrt_floor(n, r + 1));
        }
    }
    assert(exists|q: int| is_sqrt_floor(n, q));
}

/// The scoring projection never falls below the lowest `Int` score and
/// never exceeds the largest `Entity` score plus the largest magnitude.
pub proof fn lemma_score_milli_bounds(v: BlackboardValue)
    ensures
        -2147483648000 <= v.score_milli_spec() <= 4294967295000,
{
    match v {
        BlackboardValue::Vec2(x, y) => {
            let n = 1000000 * (x * x + y * y);
            assert(0 <= x * x <= 0x4000000000000000 && 0 <= y * y <= 0x4000000000000000)
                by (nonlinear_arith)
                requires
                    -0x80000000 <= x <= 0x7fffffff,
                    -0x80000000 <= y <= 0x7fffffff,
            ;
            lemma_sqrt_floor_exists(n);
            let r = sqrt_floor(n);
            assert(r <= 4000000000000) by (nonlinear_arith)
                requires
                    0 <= r,
                    r * r <= n,
                    n <= 1000000 * 0x8000000000000000,
            ;
        },
        _ => {},
    }
}

/// Floor square root by bisection.
fn isqrt_u128(n: u128) -> (r: u128)
    requires
        n < (1u128 << 126),
    ensures
        is_sqrt_floor(n as int, r as int),
{
    proof {
        assert((1u128 << 63) == 0x8000000000000000u128) by (bit_vector);
        assert((1u128 << 126) == 0x40000000000000000000000000000000u128) by (bit_vector);
    }
    let mut lo: u128 = 0;
    let mut hi: u128 = 1u128 << 63;
    while lo + 1 < hi
        invariant
            0 <= lo < hi,
            hi <= 0x8000000000000000u128,
            (lo as int) * (lo as int) <= n as int,
            (n as int) < (hi as int) * (hi as int),
        decreases hi - lo,
    {
        let mid: u128 = lo + (hi - lo) / 2;
        proof {
            assert((mid as int) * (mid as int) < 0x40000000000000000000000000000000int)
                by (nonlinear_arith)
                requires
                    0 <= mid < 0x8000000000000000u128,
            ;
        }
        if mid * mid <= n {
            lo = mid;
        } else {
            hi = mid;
        }
    }
    lo
}

impl BlackboardValue {
    /// Whether the value counts as true: non-zero numbers and entities, a
    /// true bool, a vector with any non-zero component.
    pub open spec fn truthy(self) -> bool {
        match self {
            BlackboardValue::Int(v) => v != 0,
            BlackboardValue::Fixed(v) => v != 0,
            BlackboardValue::Bool(v) => v,
            BlackboardValue::Entity(v) => v != 0,
            BlackboardValue::Vec2(x, y) => x != 0 || y != 0,
        }
    }

    /// The deterministic scoring projection in thousandths: an `Int` or
    /// `Entity` counts at face value, a `Fixed` already stores thousandths, a
    /// `Bool` is one or zero, and a `Vec2` scores its Euclidean magnitude
    /// rounded down to the nearest thousandth.
    pub open spec fn score_milli_spec(self) -> int {
        match self {
            BlackboardValue::Int(v) => 1000 * v,
            BlackboardValue::Fixed(v) => v as int,
            BlackboardValue::Bool(v) => if v {
                1000int
            } else {
                0int
            },
            BlackboardValue::Entity(v) => 1000 * v,
            BlackboardValue::Vec2(x, y) => sqrt_floor(1000000 * (x * x + y * y)),
        }
    }

    pub fn as_int(self) -> (r: Option<i32>)
        ensures
            r == (match self {
                BlackboardValue::Int(v) => Some(v),
                _ => None::<i32>,
            }),
    {
        match self {
            BlackboardValue::Int(v) => Some(v),
            _ => None,
        }
    }

    pub fn as_bool(self) -> (r: Option<bool>)
        ensures
            r == (match self {
                BlackboardValue::Bool(v) => Some(v),
                _ => None::<bool>,
            }),
    {
        match self {
            BlackboardValue::Bool(v) => Some(v),
            _ => None,
        }
    }

    pub fn as_entity(self) -> (r: Option<u32>)
        ensures
            r == (match self {
                BlackboardValue::Entity(v) => Some(v),
                _ => None::<u32>,
            }),
    {
        match self {
            BlackboardValue::Entity(v) => Some(v),
            _ => None,
        }
    }

    pub fn as_vec2(self) -> (r: Option<(i32, i32)>)
        ensures
            r == (match self {
                BlackboardValue::Vec2(x, y) => Some((x, y)),
                _ => None::<(i32, i32)>,
            }),
    {
        match self {
            BlackboardValue::Vec2(x, y) => Some((x, y)),
            _ => None,
        }
    }

    pub fn is_truthy(self) -> (r: bool)
        ensures
            r == self.truthy(),
    {
        match self {
            BlackboardValue::Int(v) => v != 0,
            BlackboardValue::Fixed(v) => v != 0,
            BlackboardValue::Bool(v) => v,
            BlackboardValue::Entity(v) => v != 0,
            BlackboardValue::Vec2(x, y) => x != 0 || y != 0,
        }
    }

    /// The scoring projection, computed exactly.
    pub fn to_score_milli(self) -> (r: i64)
        ensures
            r as int == self.score_milli_spec(),
    {
        match self {
            BlackboardValue::Int(v) => (v as i64) * 1000,
            BlackboardValue::Fixed(v) => v as i64,
            BlackboardValue::Bool(v) => if v {
                1000
            } else {
                0
            },
            BlackboardValue::Entity(v) => (v as i64) * 1000,
            BlackboardValue::Vec2(x, y) => {
                let xi = x as i128;
                let yi = y as i128;
                proof {
                    assert(0 <= xi * xi <= 0x4000000000000000int && 0 <= yi * yi
                        <= 0x4000000000000000int) by (nonlinear_arith)
                        requires
                            -0x80000000 <= xi <= 0x7fffffff,
                            -0x80000000 <= yi <= 0x7fffffff,
                    ;
                }
                let m: u128 = (xi * xi + yi * yi) as u128;
                let n: u128 = m * 1000000;
                proof {
                    assert((1u128 << 126) == 0x40000000000000000000000000000000u128)
                        by (bit_vector);
                }
                let r = isqrt_u128(n);
                proof {
                    let nn = n as int;
                    assert(is_sqrt_floor(nn, sqrt_floor(nn))) by {
                        assert(is_sqrt_floor(nn, r as int));
                    }
                    lemma_sqrt_floor_unique(nn, r as int, sqrt_floor(nn));
                    assert((r as int) * (r as int) <= nn);
                    assert(r <= 4000000000000u128) by (nonlinear_arith)
                        requires
                            (r as int) * (r as int) <= nn,
                            nn <= 1000000int * (0x8000000000000000int),
                    ;
                }
                r as i64
            },
        }
    }
}

/// A typed key-to-value store: a mapping from `u32` keys to blackboard
/// values with unique keys, where the last write wins. Entries are kept
/// sorted by key, so iteration order is the key order.
#[derive(Debug)]
pub struct Blackboard {
    entries: Vec<(u32, BlackboardValue)>,
}

/// The mapping described by a run of key-value entries, later entries
/// winning.
pub open spec fn entries_map(s: Seq<(u32, BlackboardValue)>) -> Map<u32, BlackboardValue>
    decreases s.len(),
{
    if s.len() == 0 {
        Map::empty()
    } else {
        entries_map(s.drop_last()).insert(s.last().0, s.last().1)
    }
}

/// Keys in a run of entries are strictly increasing.
pub open spec fn entries_sorted(s: Seq<(u32, BlackboardValue)>) -> bool {
    forall|i: int, j: int| 0 <= i < j < s.len() ==> (#[trigger] s[i]).0 < (#[trigger] s[j]).0
}

/// What `entries_map` holds: a key is present exactly when some entry
/// carries it, distinct keys map to their entries' values, and the domain is
/// finite with one element per entry.
proof fn lemma_entries_map_char(s: Seq<(u32, BlackboardValue)>)
    requires
        entries_sorted(s),
    ensures
        forall|k: u32|
            entries_map(s).contains_key(k) <==> (exists|i: int|
                0 <= i < s.len() && (#[trigger] s[i]).0 == k),
        forall|i: int|
            0 <= i < s.len() ==> entries_map(s).contains_key((#[trigger] s[i]).0)
                && entries_map(s)[s[i].0] == s[i].1,
        entries_map(s).dom().finite(),
        entries_map(s).dom().len() == s.len(),
    decreases s.len(),
{
    if s.len() > 0 {
        let d = s.drop_last();
        lemma_entries_map_char(d);
        assert(forall|i: int| 0 <= i < d.len() ==> #[trigger] d[i] == s[i]);
        assert(!entries_map(d).contains_key(s.last().0));
        assert forall|i: int| 0 <= i < s.len() implies entries_map(s).contains_key(
            (#[trigger] s[i]).0,
        ) && entries_map(s)[s[i].0] == s[i].1 by {
            if i < s.len() - 1 {
                assert(d[i] == s[i]);
                assert(s[i].0 != s.last().0);
            }
        }
        assert(entries_map(s).dom() =~= entries_map(d).dom().insert(s.last().0));
    }
}

impl View for Blackboard {
    type V = Map<u32, BlackboardValue>;

    closed spec fn view(&self) -> Map<u32, BlackboardValue> {
        entries_map(self.entries@)
    }
}

impl Blackboard {
    #[verifier::type_invariant]
    spec fn wf(self) -> bool {
        entries_sorted(self.entries@)
    }

    /// An empty blackboard.
    pub fn new() -> (r: Self)
        ensures
            r@ == Map::<u32, BlackboardValue>::empty(),
            r@.dom().finite(),
    {
        let bb = Blackboard { entries: Vec::new() };
        proof {
            lemma_entries_map_char(bb.entries@);
        }
        bb
    }

    /// The value stored under `key`, if any.
    pub fn get(&self, key: u32) -> (r: Option<BlackboardValue>)
        ensures
            r == (if self@.contains_key(key) {
                Some(self@[key])
            } else {
                None::<BlackboardValue>
            }),
    {
        proof {
            use_type_invariant(self);
            lemma_entries_map_char(self.entries@);
        }
        let n = self.entries.len();
        let mut i: usize = 0;
        while i < n
            invariant
                n == self.entries.len(),
                0 <= i <= n,
                entries_sorted(self.entries@),
                forall|j: int| 0 <= j < i ==> (#[trigger] self.entries@[j]).0 != key,
            decreases n - i,
        {
            if self.entries[i].0 == key {
                proof {
                    lemma_entries_map_char(self.entries@);
                }
                return Some(self.entries[i].1);
            }
            i = i + 1;
        }
        proof {
            lemma_entries_map_char(self.entries@);
        }
        None
    }

    pub fn get_int(&self, key: u32) -> (r: Option<i32>)
        ensures
            r == (match self@.contains_key(key) {
                true => self@[key].as_int_spec(),
                false => None::<i32>,
            }),
    {
        match self.get(key) {
            Some(v) => v.as_int(),
            None => None,
        }
    }

    pub fn get_bool(&self, key: u32) -> (r: Option<bool>)
        ensures
            r == (match self@.contains_key(key) {
                true => self@[key].as_bool_spec(),
                false => None::<bool>,
            }),
    {
        match self.get(key) {
            Some(v) => v.as_bool(),
            None => None,
        }
    }

    pub fn get_entity(&self, key: u32) -> (r: Option<u32>)
        ensures
            r == (match self@.contains_key(key) {
                true => self@[key].as_entity_spec(),
                false => None::<u32>,
            }),
    {
        match self.get(key) {
            Some(v) => v.as_entity(),
            None => None,
        }
    }

    pub fn get_vec2(&self, key: u32) -> (r: Option<(i32, i32)>)
        ensures
            r == (match self@.contains_key(key) {
                true => self@[key].as_vec2_spec(),
                false => None::<(i32, i32)>,
            }),
    {
        match self.get(key) {
            Some(v) => v.as_vec2(),
            None => None,
        }
    }

    /// Store `value` under `key`, replacing any earlier value.
    pub fn set(&mut self, key: u32, value: BlackboardValue)
        ensures
            final(self)@ == old(self)@.insert(key, value),
            final(self)@.dom().finite(),
    {
        proof {
            use_type_invariant(&*self);
        }
        let ghost s0 = self.entries@;
        let mut es: Vec<(u32, BlackboardValue)> = Vec::new();
        core::mem::swap(&mut self.entries, &mut es);
        let n = es.len();
        let mut i: usize = 0;
        while i < n && es[i].0 < key
            invariant
                n == es.len(),
                0 <= i <= n,
                es@ == s0,
                entries_sorted(s0),
                forall|j: int| 0 <= j < i ==> (#[trigger] s0[j]).0 < key,
            decreases n - i,
        {
            i = i + 1;
        }
        if i < n && es[i].0 == key {
            es[i] = (key, value);
            proof {
                lemma_set_update(s0, es@, i as int, key, value);
            }
        } else {
            proof {
                assert forall|j: int| i <= j < s0.len() implies (#[trigger] s0[j]).0 > key by {
                    if j > i {
                        assert(s0[i as int].0 < s0[j].0);
                    }
                }
            }
            es.insert(i, (key, value));
            proof {
                lemma_set_insert(s0, es@, i as int, key, value);
            }
        }
        core::mem::swap(&mut self.entries, &mut es);
        proof {
            lemma_entries_map_char(self.entries@);
        }
    }

    pub fn set_int(&mut self, key: u32, value: i32)
        ensures
            final(self)@ == old(self)@.insert(key, BlackboardValue::Int(value)),
            final(self)@.dom().finite(),
    {
        self.set(key, BlackboardValue::Int(value));
    }

    pub fn set_bool(&mut self, key: u32, value: bool)
        ensures
            final(self)@ == old(self)@.insert(key, BlackboardValue::Bool(value)),
            final(self)@.dom().finite(),
    {
        self.set(key, BlackboardValue::Bool(value));
    }

    pub fn set_entity(&mut self, key: u32, value: u32)
        ensures
            final(self)@ == old(self)@.insert(key, BlackboardValue::Entity(value)),
            final(self)@.dom().finite(),
    {
        self.set(key, BlackboardValue::Entity(value));
    }

    pub fn set_vec2(&mut self, key: u32, x: i32, y: i32)
        ensures
            final(self)@ == old(self)@.insert(key, BlackboardValue::Vec2(x, y)),
            final(self)@.dom().finite(),
    {
        self.set(key, BlackboardValue::Vec2(x, y));
    }

    /// Whether any value is stored under `key`.
    pub fn has(&self, key: u32) -> (r: bool)
        ensures
            r == self@.contains_key(key),
    {
        self.get(key).is_some()
    }

    /// Drop the value stored under `key`, returning it if it was there.
    pub fn remove(&mut self, key: u32) -> (r: Option<BlackboardValue>)
        ensures
            final(self)@ == old(self)@.remove(key),
            final(self)@.dom().finite(),
            r == (if old(self)@.contains_key(key) {
                Some(old(self)@[key])
            } else {
                None::<BlackboardValue>
            }),
    {
        proof {
            use_type_invariant(&*self);
            lemma_entries_map_char(self.entries@);
        }
        let ghost s0 = self.entries@;
        let mut es: Vec<(u32, BlackboardValue)> = Vec::new();
        core::mem::swap(&mut self.entries, &mut es);
        let n = es.len();
        let mut i: usize = 0;
        while i < n
            invariant
                n == es.len(),
                0 <= i <= n,
                es@ == s0,
                entries_sorted(s0),
                old(self)@ == entries_map(s0),
                forall|j: int| 0 <= j < i ==> (#[trigger] s0[j]).0 != key,
            decreases n - i,
        {
            if es[i].0 == key {
                let entry = es.remove(i);
                proof {
                    lemma_entries_map_char(s0);
                    lemma_set_remove(s0, es@, i as int, key);
                    assert(entries_map(es@) == entries_map(s0).remove(key));
                    assert(s0[i as int].0 == key);
                    assert(entries_map(s0)[key] == s0[i as int].1);
                    assert(entry == s0[i as int]);
                }
                core::mem::swap(&mut self.entries, &mut es);
                proof {
                    assert(self@ == entries_map(s0).remove(key));
                    lemma_entries_map_char(self.entries@);
                }
                return Some(entry.1);
            }
            i = i + 1;
        }
        core::mem::swap(&mut self.entries, &mut es);
        proof {
            assert(self@ =~= old(self)@.remove(key));
            lemma_entries_map_char(self.entries@);
        }
        None
    }

    /// Drop every entry.
    pub fn clear(&mut self)
        ensures
            final(self)@ == Map::<u32, BlackboardValue>::empty(),
            final(self)@.dom().finite(),
    {
        self.entries = Vec::new();
        proof {
            lemma_entries_map_char(self.entries@);
        }
    }

    /// Number of stored entries.
    pub fn len(&self) -> (r: usize)
        ensures
            r == self@.dom().len(),
            self@.dom().finite(),
    {
        proof {
            use_type_invariant(self);
            lemma_entries_map_char(self.entries@);
        }
        self.entries.len()
    }

    pub fn is_empty(&self) -> (r: bool)
        ensures
            r == (self@.dom().len() == 0),
            r <==> (forall|k: u32| !self@.contains_key(k)),
    {
        proof {
            use_type_invariant(self);
            lemma_entries_map_char(self.entries@);
            if self.entries@.len() > 0 {
                assert(self@.contains_key(self.entries@[0].0));
            }
        }
        self.len() == 0
    }
}

impl BlackboardValue {
    /// What `as_int` returns.
    pub open spec fn as_int_spec(self) -> Option<i32> {
        match self {
            BlackboardValue::Int(v) => Some(v),
            _ => None,
        }
    }

    /// What `as_bool` returns.
    pub open spec fn as_bool_spec(self) -> Option<bool> {
        match self {
            BlackboardValue::Bool(v) => Some(v),
            _ => None,
        }
    }

    /// What `as_entity` returns.
    pub open spec fn as_entity_spec(self) -> Option<u32> {
        match self {
            BlackboardValue::Entity(v) => Some(v),
            _ => None,
        }
    }

    /// What `as_vec2` returns.
    pub open spec fn as_vec2_spec(self) -> Option<(i32, i32)> {
        match self {
            BlackboardValue::Vec2(x, y) => Some((x, y)),
            _ => None,
        }
    }
}

/// Replacing the entry at a position that already carries `key` realises a
/// map insert.
proof fn lemma_set_update(
    s0: Seq<(u32, BlackboardValue)>,
    s1: Seq<(u32, BlackboardValue)>,
    i: int,
    key: u32,
    value: BlackboardValue,
)
    requires
        entries_sorted(s0),
        0 <= i < s0.len(),
        s0[i].0 == key,
        s1 == s0.update(i, (key, value)),
    ensures
        entries_sorted(s1),
        entries_map(s1) == entries_map(s0).insert(key, value),
{
    assert(entries_sorted(s1));
    lemma_entries_map_char(s0);
    lemma_entries_map_char(s1);
    assert(entries_map(s1) =~= entries_map(s0).insert(key, value)) by {
        assert(forall|k: u32|
            entries_map(s1).contains_key(k) ==> entries_map(s0).insert(key, value).contains_key(
                k,
            ));
        assert forall|k: u32|
            entries_map(s0).insert(key, value).contains_key(
                k,
            ) implies entries_map(s1).contains_key(k) by {
            if k == key {
                assert(s1[i].0 == k);
            } else {
                let j = choose|j: int| 0 <= j < s0.len() && (#[trigger] s0[j]).0 == k;
                assert(s1[j].0 == k);
            }
        }
        assert forall|k: u32| #[trigger]
            entries_map(s1).contains_key(k) implies entries_map(s1)[k] == entries_map(s0).insert(
            key,
            value,
        )[k] by {
            if k == key {
                assert(s1[i] == (key, value));
            } else {
                let j = choose|j: int| 0 <= j < s1.len() && (#[trigger] s1[j]).0 == k;
                assert(s0[j] == s1[j]);
            }
        }
    }
}

/// Inserting a fresh entry at its sorted position realises a map insert.
proof fn lemma_set_insert(
    s0: Seq<(u32, BlackboardValue)>,
    s1: Seq<(u32, BlackboardValue)>,
    i: int,
    key: u32,
    value: BlackboardValue,
)
    requires
        entries_sorted(s0),
        0 <= i <= s0.len(),
        forall|j: int| 0 <= j < i ==> (#[trigger] s0[j]).0 < key,
        forall|j: int| i <= j < s0.len() ==> (#[trigger] s0[j]).0 > key,
        s1 == s0.insert(i, (key, value)),
    ensures
        entries_sorted(s1),
        entries_map(s1) == entries_map(s0).insert(key, value),
{
    assert forall|p: int, q: int| 0 <= p < q < s1.len() implies (#[trigger] s1[p]).0 < (
    #[trigger] s1[q]).0 by {
        if p < i && q > i {
            assert(s1[p] == s0[p] && s1[q] == s0[q - 1]);
        } else if p == i && q > i {
            assert(s1[q] == s0[q - 1]);
        } else if p < i && q == i {
            assert(s1[p] == s0[p]);
        } else if q < i {
            assert(s1[p] == s0[p] && s1[q] == s0[q]);
        } else if p > i {
            assert(s1[p] == s0[p - 1] && s1[q] == s0[q - 1]);
        }
    }
    lemma_entries_map_char(s0);
    lemma_entries_map_char(s1);
    assert(s1[i] == (key, value));
    assert(entries_map(s1) =~= entries_map(s0).insert(key, value)) by {
        assert forall|k: u32|
            entries_map(s1).contains_key(k) implies entries_map(s0).insert(key, value).contains_key(
            k,
        ) by {
            let j = choose|j: int| 0 <= j < s1.len() && (#[trigger] s1[j]).0 == k;
            if j < i {
                assert(s0[j].0 == k);
            } else if j > i {
                assert(s0[j - 1].0 == k);
            }
        }
        assert forall|k: u32|
            entries_map(s0).insert(key, value).contains_key(
                k,
            ) implies entries_map(s1).contains_key(k) by {
            if k == key {
                assert(s1[i].0 == k);
            } else {
                let j = choose|j: int| 0 <= j < s0.len() && (#[trigger] s0[j]).0 == k;
                if j < i {
                    assert(s1[j].0 == k);
                } else {
                    assert(s1[j + 1].0 == k);
                }
            }
        }
        assert forall|k: u32| #[trigger]
            entries_map(s1).contains_key(k) implies entries_map(s1)[k] == entries_map(s0).insert(
            key,
            value,
        )[k] by {
            let j = choose|j: int| 0 <= j < s1.len() && (#[trigger] s1[j]).0 == k;
            if j == i {
            } else if j < i {
                assert(s1[j] == s0[j]);
                assert(s0[j].0 == k);
            } else {
                assert(s1[j] == s0[j - 1]);
                assert(s0[j - 1].0 == k);
            }
        }
    }
}

/// Removing the entry that carries `key` realises a map remove.
proof fn lemma_set_remove(
    s0: Seq<(u32, BlackboardValue)>,
    s1: Seq<(u32, BlackboardValue)>,
    i: int,
    key: u32,
)
    requires
        entries_sorted(s0),
        0 <= i < s0.len(),
        s0[i].0 == key,
        s1 == s0.remove(i),
    ensures
        entries_sorted(s1),
        entries_map(s1) == entries_map(s0).remove(key),
{
    assert forall|p: int, q: int| 0 <= p < q < s1.len() implies (#[trigger] s1[p]).0 < (
    #[trigger] s1[q]).0 by {
        if q < i {
            assert(s1[p] == s0[p] && s1[q] == s0[q]);
        } else if p < i {
            assert(s1[p] == s0[p] && s1[q] == s0[q + 1]);
        } else {
            assert(s1[p] == s0[p + 1] && s1[q] == s0[q + 1]);
        }
    }
    lemma_entries_map_char(s0);
    lemma_entries_map_char(s1);
    assert(entries_map(s1) =~= entries_map(s0).remove(key)) by {
        assert forall|k: u32|
            entries_map(s1).contains_key(k) implies entries_map(s0).remove(key).contains_key(
            k,
        ) by {
            let j = choose|j: int| 0 <= j < s1.len() && (#[trigger] s1[j]).0 == k;
            if j < i {
                assert(s0[j].0 == k);
            } else {
                assert(s0[j + 1].0 == k);
            }
        }
        assert forall|k: u32|
            entries_map(s0).remove(key).contains_key(k) implies entries_map(s1).contains_key(k) by {
            let j = choose|j: int| 0 <= j < s0.len() && (#[trigger] s0[j]).0 == k;
            if j < i {
                assert(s1[j].0 == k);
            } else {
                assert(j != i);
                assert(s1[j - 1].0 == k);
            }
        }
        assert forall|k: u32| #[trigger]
            entries_map(s1).contains_key(k) implies entries_map(s1)[k] == entries_map(s0).remove(
            key,
        )[k] by {
            let j = choose|j: int| 0 <= j < s1.len() && (#[trigger] s1[j]).0 == k;
            if j < i {
                assert(s1[j] == s0[j]);
                assert(s0[j].0 == k);
            } else {
                assert(s1[j] == s0[j + 1]);
                assert(s0[j + 1].0 == k);
            }
        }
    }
}

} // verus!

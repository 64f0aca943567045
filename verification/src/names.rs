//! Tables keyed by names, decimal rendering and fresh-name generation.

use vstd::prelude::*;
use vstd::string::*;

verus! {

/// The decimal digit of a number below ten.
pub open spec fn digit(d: nat) -> char {
    if d == 0 {
        '0'
    } else if d == 1 {
        '1'
    } else if d == 2 {
        '2'
    } else if d == 3 {
        '3'
    } else if d == 4 {
        '4'
    } else if d == 5 {
        '5'
    } else if d == 6 {
        '6'
    } else if d == 7 {
        '7'
    } else if d == 8 {
        '8'
    } else {
        '9'
    }
}

/// The decimal digits of `n`, most significant first, without leading zeros.
pub open spec fn decimal(n: nat) -> Seq<char>
    decreases n,
{
    if n < 10 {
        seq![digit(n)]
    } else {
        decimal(n / 10).push(digit(n % 10))
    }
}

/// Two numbers with the same decimal digits are equal.
pub proof fn decimal_is_injective(m: nat, n: nat)
    requires
        decimal(m) == decimal(n),
    ensures
        m == n,
    decreases m,
{
    decimal_is_nonempty(m / 10);
    decimal_is_nonempty(n / 10);
    assert(m < 10 ==> decimal(m) == seq![digit(m)]);
    assert(n < 10 ==> decimal(n) == seq![digit(n)]);
    assert(m >= 10 ==> decimal(m) == decimal(m / 10).push(digit(m % 10)));
    assert(n >= 10 ==> decimal(n) == decimal(n / 10).push(digit(n % 10)));
    assert(decimal(m).len() == decimal(n).len());
    assert(decimal(m).last() == digit(m % 10));
    assert(decimal(n).last() == digit(n % 10));
    assert(m % 10 == n % 10);
    if m >= 10 && n >= 10 {
        assert(decimal(m).drop_last() =~= decimal(m / 10));
        assert(decimal(n).drop_last() =~= decimal(n / 10));
        decimal_is_injective(m / 10, n / 10);
    }
}

/// Every number has at least one decimal digit.
proof fn decimal_is_nonempty(n: nat)
    ensures
        decimal(n).len() > 0,
    decreases n,
{
    if n >= 10 {
        decimal_is_nonempty(n / 10);
    }
}

/// Whether a character is a decimal digit.
pub open spec fn is_digit(c: char) -> bool {
    '0' <= c && c <= '9'
}

/// A number is written with decimal digits alone.
pub proof fn decimal_is_digits(n: nat)
    ensures
        decimal(n).len() > 0,
        forall|i: int| 0 <= i < decimal(n).len() ==> is_digit(#[trigger] decimal(n)[i]),
    decreases n,
{
    if n >= 10 {
        decimal_is_digits(n / 10);
    }
}

/// The number that a text of decimal digits is read as.
pub open spec fn number_read(s: Seq<char>) -> int
    decreases s.len(),
{
    if s.len() == 0 {
        0
    } else {
        10 * number_read(s.drop_last()) + (s.last() as int - '0' as int)
    }
}

/// The decimal digits of a number are read as that number, and do not start with a
/// zero but for zero itself.
pub proof fn decimal_reads_back(n: nat)
    ensures
        number_read(decimal(n)) == n,
        n > 0 ==> decimal(n)[0] != '0',
        n == 0 ==> decimal(n).len() == 1,
    decreases n,
{
    let s = decimal(n);
    if n < 10 {
        assert(s.drop_last() =~= Seq::empty());
        assert(number_read(s.drop_last()) == 0);
    } else {
        decimal_reads_back(n / 10);
        decimal_is_nonempty(n / 10);
        assert(s.drop_last() =~= decimal(n / 10));
    }
}

/// The digit of a number below ten, as text.
fn digit_text(d: u64) -> (r: &'static str)
    requires
        d < 10,
    ensures
        r@ == seq![digit(d as nat)],
{
    proof {
        reveal_strlit("0");
        reveal_strlit("1");
        reveal_strlit("2");
        reveal_strlit("3");
        reveal_strlit("4");
        reveal_strlit("5");
        reveal_strlit("6");
        reveal_strlit("7");
        reveal_strlit("8");
        reveal_strlit("9");
    }
    let r: &'static str = if d == 0 {
        "0"
    } else if d == 1 {
        "1"
    } else if d == 2 {
        "2"
    } else if d == 3 {
        "3"
    } else if d == 4 {
        "4"
    } else if d == 5 {
        "5"
    } else if d == 6 {
        "6"
    } else if d == 7 {
        "7"
    } else if d == 8 {
        "8"
    } else {
        "9"
    };
    assert(r@ =~= seq![digit(d as nat)]);
    r
}

/// Appends the decimal digits of `n` to `out`.
pub fn push_decimal(out: &mut String, n: u64)
    ensures
        final(out)@ == old(out)@ + decimal(n as nat),
    decreases n,
{
    if n < 10 {
        out.append(digit_text(n));
    } else {
        push_decimal(out, n / 10);
        out.append(digit_text(n % 10));
        assert(out@ =~= old(out)@ + decimal(n as nat));
    }
}

/// The name made of `prefix` and the decimal digits of `i`.
pub open spec fn numbered(prefix: Seq<char>, i: nat) -> Seq<char> {
    prefix + decimal(i)
}

/// Renders the name made of `prefix` and the decimal digits of `i`.
pub fn numbered_name(prefix: &str, i: usize) -> (r: String)
    ensures
        r@ == numbered(prefix@, i as nat),
{
    let mut r = String::from_str(prefix);
    push_decimal(&mut r, i as u64);
    r
}

/// Names that share a prefix differ as soon as their numbers differ.
pub proof fn numbered_is_injective(prefix: Seq<char>, i: nat, j: nat)
    requires
        numbered(prefix, i) == numbered(prefix, j),
    ensures
        i == j,
{
    let k = prefix.len() as int;
    assert(decimal(i) =~= numbered(prefix, i).skip(k));
    assert(decimal(j) =~= numbered(prefix, j).skip(k));
    decimal_is_injective(i, j);
}

/// A numbered name is its prefix and the number.
pub proof fn numbered_reads_back(prefix: Seq<char>, i: nat)
    ensures
        prefix.is_prefix_of(numbered(prefix, i)),
        number_read(numbered(prefix, i).skip(prefix.len() as int)) == i,
{
    assert(prefix =~= numbered(prefix, i).subrange(0, prefix.len() as int));
    assert(decimal(i) =~= numbered(prefix, i).skip(prefix.len() as int));
    decimal_reads_back(i);
}

/// Text may be put together from either end.
pub broadcast proof fn text_is_joined(a: Seq<char>, b: Seq<char>, c: Seq<char>)
    ensures
        #[trigger] (a + (b + c)) == (a + b) + c,
{
    assert(a + (b + c) =~= (a + b) + c);
}

/// Text with nothing behind it is that text.
pub broadcast proof fn nothing_is_joined(a: Seq<char>)
    ensures
        #[trigger] (a + Seq::<char>::empty()) == a,
{
    assert(a + Seq::<char>::empty() =~= a);
}

/// The characters of a sequence of names.
pub open spec fn texts(s: Seq<String>) -> Seq<Seq<char>> {
    s.map_values(|x: String| x@)
}

/// Copies a list of names.
pub fn clone_names(v: &Vec<String>) -> (r: Vec<String>)
    ensures
        r@ == v@,
{
    let mut r: Vec<String> = Vec::new();
    let mut i: usize = 0;
    while i < v.len()
        invariant
            i <= v.len(),
            r@ == v@.take(i as int),
        decreases v.len() - i,
    {
        r.push(v[i].clone());
        i += 1;
        assert(r@ =~= v@.take(i as int));
    }
    assert(v@.take(i as int) =~= v@);
    r
}

/// A set of names.
#[derive(Debug)]
pub struct NameSet {
    pub names: Vec<String>,
}

impl View for NameSet {
    type V = Set<Seq<char>>;

    open spec fn view(&self) -> Set<Seq<char>> {
        texts(self.names@).to_set()
    }
}

impl NameSet {
    /// The set without names.
    pub fn new() -> (r: Self)
        ensures
            r@ == Set::<Seq<char>>::empty(),
    {
        let r = NameSet { names: Vec::new() };
        assert(r@ =~= Set::<Seq<char>>::empty());
        r
    }

    /// Whether `name` is in the set.
    pub fn contains(&self, name: &String) -> (r: bool)
        ensures
            r == self@.contains(name@),
    {
        let mut i: usize = 0;
        while i < self.names.len()
            invariant
                i <= self.names.len(),
                forall|j: int| 0 <= j < i ==> (#[trigger] self.names@[j])@ != name@,
            decreases self.names.len() - i,
        {
            if self.names[i] == *name {
                assert(texts(self.names@)[i as int] == name@);
                return true;
            }
            i += 1;
        }
        assert(!texts(self.names@).contains(name@)) by {
            if texts(self.names@).contains(name@) {
                let j = texts(self.names@).index_of(name@);
                assert(self.names@[j]@ == name@);
            }
        }
        false
    }

    /// Adds `name` to the set.
    pub fn insert(&mut self, name: String)
        ensures
            final(self)@ == old(self)@.insert(name@),
    {
        let present = self.contains(&name);
        let ghost before = self.names@;
        if !present {
            self.names.push(name);
            assert(texts(self.names@) =~= texts(before).push(name@));
            assert(self@ =~= old(self)@.insert(name@)) by {
                assert forall|n: Seq<char>|
                    self@.contains(n) == old(self)@.insert(name@).contains(n) by {
                    let grown = texts(before).push(name@);
                    if n == name@ {
                        assert(grown[before.len() as int] == n);
                    }
                    if texts(before).contains(n) {
                        let j = texts(before).index_of(n);
                        assert(grown[j] == n);
                    }
                    if grown.contains(n) && n != name@ {
                        let j = grown.index_of(n);
                        assert(texts(before)[j] == n);
                    }
                }
            }
        } else {
            assert(self@ =~= old(self)@.insert(name@));
        }
    }
}

/// A map from names to values. Entries added later hide earlier ones of the
/// same name.
#[derive(Debug)]
pub struct NameTable<V> {
    pub entries: Vec<(String, V)>,
}

/// What the first `n` entries of a table map each name to.
pub open spec fn entries_map<V>(entries: Seq<(String, V)>, n: nat) -> Map<Seq<char>, V>
    decreases n,
{
    if n == 0 || n > entries.len() {
        Map::empty()
    } else {
        entries_map(entries, (n - 1) as nat).insert(entries[n - 1].0@, entries[n - 1].1)
    }
}

proof fn entries_map_prefix<V>(a: Seq<(String, V)>, b: Seq<(String, V)>, n: nat)
    requires
        n <= a.len(),
        n <= b.len(),
        forall|i: int| 0 <= i < n ==> a[i] == b[i],
    ensures
        entries_map(a, n) == entries_map(b, n),
    decreases n,
{
    if n > 0 {
        entries_map_prefix(a, b, (n - 1) as nat);
    }
}

impl<V> View for NameTable<V> {
    type V = Map<Seq<char>, V>;

    open spec fn view(&self) -> Map<Seq<char>, V> {
        entries_map(self.entries@, self.entries@.len())
    }
}

impl<V> NameTable<V> {
    /// The table without entries.
    pub fn new() -> (r: Self)
        ensures
            r@ == Map::<Seq<char>, V>::empty(),
    {
        NameTable { entries: Vec::new() }
    }

    /// The value of `name`, if it has one.
    pub fn get(&self, name: &String) -> (r: Option<&V>)
        ensures
            match r {
                Some(v) => self@.contains_key(name@) && self@[name@] == *v,
                None => !self@.contains_key(name@),
            },
    {
        let mut i: usize = self.entries.len();
        while i > 0
            invariant
                i <= self.entries.len(),
                self@.contains_key(name@) == entries_map(self.entries@, i as nat).contains_key(
                    name@,
                ),
                self@[name@] == entries_map(self.entries@, i as nat)[name@],
            decreases i,
        {
            i -= 1;
            if self.entries[i].0 == *name {
                return Some(&self.entries[i].1);
            }
        }
        None
    }

    /// Maps `name` to `value` from now on.
    pub fn insert(&mut self, name: String, value: V)
        ensures
            final(self)@ == old(self)@.insert(name@, value),
    {
        self.entries.push((name, value));
        proof {
            entries_map_prefix(self.entries@, old(self).entries@, old(self).entries@.len());
        }
    }
}

/// A generator of names: a prefix that is reserved for them, a hint and a
/// running number. No variable of a program starts with the prefix.
#[derive(Debug)]
pub struct SymbolGen {
    pub reserved: String,
    pub count: usize,
}

/// The name that a generator with this reserved prefix makes for `hint` when
/// its running number is `count`.
pub open spec fn fresh_name(reserved: Seq<char>, hint: Seq<char>, count: nat) -> Seq<char> {
    numbered(reserved + hint, count)
}

impl SymbolGen {
    /// A generator that has not made a name yet.
    pub fn new(reserved: String) -> (r: Self)
        ensures
            r.reserved == reserved,
            r.count == 0,
    {
        SymbolGen { reserved, count: 0 }
    }

    /// Makes the next name for `hint`.
    pub fn fresh(&mut self, hint: &str) -> (r: String)
        requires
            old(self).count < usize::MAX,
        ensures
            r@ == fresh_name(old(self).reserved@, hint@, old(self).count as nat),
            final(self).count == old(self).count + 1,
            final(self).reserved == old(self).reserved,
    {
        let base = self.reserved.clone().concat(hint);
        let r = numbered_name(base.as_str(), self.count);
        self.count = self.count + 1;
        r
    }
}

/// The name that a generator makes is its reserved prefix, the hint and its running
/// number.
pub proof fn fresh_name_reads_back(reserved: Seq<char>, hint: Seq<char>, i: nat)
    ensures
        (reserved + hint).is_prefix_of(fresh_name(reserved, hint, i)),
        number_read(
            fresh_name(reserved, hint, i).skip((reserved + hint).len() as int),
        ) == i,
{
    numbered_reads_back(reserved + hint, i);
}

/// Every name that a generator makes starts with its reserved prefix.
pub proof fn fresh_name_is_reserved(reserved: Seq<char>, hint: Seq<char>, i: nat)
    ensures
        reserved.is_prefix_of(fresh_name(reserved, hint, i)),
{
    assert(reserved =~= fresh_name(reserved, hint, i).subrange(0, reserved.len() as int));
}

/// A generator never repeats a name for the same hint.
pub proof fn fresh_names_differ(reserved: Seq<char>, hint: Seq<char>, i: nat, j: nat)
    requires
        i != j,
    ensures
        fresh_name(reserved, hint, i) != fresh_name(reserved, hint, j),
{
    if fresh_name(reserved, hint, i) == fresh_name(reserved, hint, j) {
        numbered_is_injective(reserved + hint, i, j);
    }
}

} // verus!

use vstd::prelude::*;

verus! {

/// Length of a symbol's stored name; longer names are cut, shorter ones padded with zeros.
pub const SYMBOL_NAME_LEN: usize = 24;

/// A registered symbol: its stored name and the address it stands for.
#[derive(Debug, Clone, Copy)]
pub struct Symbol {
    pub name: [u8; 24],
    pub ptr: u64,
}

/// The stored form of a name: its first 24 bytes, padded with zero bytes.
pub open spec fn stored_name(name: Seq<u8>) -> Seq<u8> {
    Seq::new(24, |i: int| if i < name.len() { name[i] } else { 0u8 })
}

/// `k` is where a lookup key ends in `t`: before the first zero byte, or at
/// the end of `t` if it has none.
pub open spec fn key_end(t: Seq<u8>, k: int) -> bool {
    &&& 0 <= k <= t.len()
    &&& forall|j: int| 0 <= j < k ==> t[j] != 0
    &&& (k == t.len() || t[k] == 0)
}

/// The key a lookup searches for: the name cut to 24 bytes, then cut before
/// its first zero byte.
pub open spec fn lookup_key(name: Seq<u8>) -> Seq<u8> {
    let t = if name.len() >= 24 {
        name.take(24)
    } else {
        name
    };
    t.take(choose|k: int| key_end(t, k))
}

/// A stored name matches a key when it starts with the key.
pub open spec fn name_matches(stored: Seq<u8>, key: Seq<u8>) -> bool {
    key.len() <= stored.len() && stored.take(key.len() as int) == key
}

/// The address of the first symbol, in order of registration, whose name
/// matches `key`.
pub open spec fn find_symbol(symbols: Seq<(Seq<u8>, u64)>, key: Seq<u8>) -> Option<u64>
    decreases symbols.len(),
{
    if symbols.len() == 0 {
        None
    } else if name_matches(symbols[0].0, key) {
        Some(symbols[0].1)
    } else {
        find_symbol(symbols.drop_first(), key)
    }
}

/// Every byte is ASCII.
pub open spec fn is_ascii(name: Seq<u8>) -> bool {
    forall|i: int| 0 <= i < name.len() ==> name[i] < 128
}

/// The stored form of a name: its first 24 bytes, padded with zero bytes.
pub fn convert_slice_to_array(slice: &[u8]) -> (r: [u8; 24])
    ensures
        r@ == stored_name(slice@),
{
    let mut array = [0u8; 24];
    let len = if slice.len() < SYMBOL_NAME_LEN {
        slice.len()
    } else {
        SYMBOL_NAME_LEN
    };
    let mut i: usize = 0;
    while i < len
        invariant
            len <= 24,
            len <= slice@.len(),
            len == slice@.len() || len == 24,
            0 <= i <= len,
            array@.len() == 24,
            forall|j: int| 0 <= j < i ==> array@[j] == slice@[j],
            forall|j: int| i <= j < 24 ==> array@[j] == 0u8,
        decreases len - i,
    {
        array[i] = slice[i];
        i = i + 1;
    }
    assert(array@ =~= stored_name(slice@));
    array
}

proof fn lemma_key_end_unique(t: Seq<u8>, k1: int, k2: int)
    requires
        key_end(t, k1),
        key_end(t, k2),
    ensures
        k1 == k2,
{
    if k1 < k2 {
        assert(t[k1] != 0);
    } else if k2 < k1 {
        assert(t[k2] != 0);
    }
}

/// The number of leading bytes of `name` that make up its lookup key.
fn lookup_key_len(name: &[u8]) -> (k: usize)
    ensures
        lookup_key(name@) == name@.take(k as int),
        k <= 24,
        k <= name@.len(),
{
    let limit = if name.len() >= SYMBOL_NAME_LEN {
        SYMBOL_NAME_LEN
    } else {
        name.len()
    };
    let ghost t = if name@.len() >= 24 {
        name@.take(24)
    } else {
        name@
    };
    assert(t =~= name@.take(limit as int));
    let mut k: usize = 0;
    while k < limit
        invariant
            limit <= 24,
            limit <= name@.len(),
            t == name@.take(limit as int),
            0 <= k <= limit,
            forall|j: int| 0 <= j < k ==> t[j] != 0,
        ensures
            0 <= k <= limit,
            forall|j: int| 0 <= j < k ==> t[j] != 0,
            k == limit || t[k as int] == 0,
        decreases limit - k,
    {
        if name[k] == 0 {
            break;
        }
        k = k + 1;
    }
    proof {
        assert(key_end(t, k as int));
        let c = choose|c: int| key_end(t, c);
        lemma_key_end_unique(t, c, k as int);
        assert(t.take(k as int) =~= name@.take(k as int));
    }
    k
}

/// Whether `stored` starts with the first `key_len` bytes of `name`.
fn starts_with_prefix(stored: &[u8; 24], name: &[u8], key_len: usize) -> (r: bool)
    requires
        key_len <= name@.len(),
    ensures
        r == name_matches(stored@, name@.take(key_len as int)),
{
    if key_len > SYMBOL_NAME_LEN {
        return false;
    }
    let mut i: usize = 0;
    while i < key_len
        invariant
            key_len <= 24,
            key_len <= name@.len(),
            stored@.len() == 24,
            0 <= i <= key_len,
            forall|j: int| 0 <= j < i ==> stored@[j] == name@[j],
        decreases key_len - i,
    {
        if stored[i] != name[i] {
            assert(stored@.take(key_len as int)[i as int] != name@.take(key_len as int)[i as int]);
            return false;
        }
        i = i + 1;
    }
    assert(stored@.take(key_len as int) =~= name@.take(key_len as int));
    true
}

/// The kernel's table of symbols that modules register, in order of registration.
pub struct SymbolTable {
    symbols: Vec<Symbol>,
}

/// A symbol as the table's view holds it: stored name and address.
pub open spec fn symbol_view(s: Symbol) -> (Seq<u8>, u64) {
    (s.name@, s.ptr)
}

impl View for SymbolTable {
    type V = Seq<(Seq<u8>, u64)>;

    closed spec fn view(&self) -> Seq<(Seq<u8>, u64)> {
        self.symbols@.map_values(|s: Symbol| symbol_view(s))
    }
}

proof fn lemma_find_symbol_skip(symbols: Seq<(Seq<u8>, u64)>, key: Seq<u8>, i: int)
    requires
        0 <= i < symbols.len(),
        !name_matches(symbols[i].0, key),
    ensures
        find_symbol(symbols.skip(i), key) == find_symbol(symbols.skip(i + 1), key),
{
    assert(symbols.skip(i).drop_first() =~= symbols.skip(i + 1));
}

impl SymbolTable {
    /// An empty table.
    pub fn new() -> (r: Self)
        ensures
            r@ == Seq::<(Seq<u8>, u64)>::empty(),
    {
        SymbolTable { symbols: Vec::new() }
    }

    /// Registers `name` for the address `ptr`, after every symbol registered
    /// before; the name is stored as its first 24 bytes, padded with zeros.
    /// The name must be ASCII.
    pub fn symbol_register(&mut self, name: &[u8], ptr: u64)
        requires
            is_ascii(name@),
        ensures
            final(self)@ == old(self)@.push((stored_name(name@), ptr)),
    {
        let array = convert_slice_to_array(name);
        self.symbols.push(Symbol { name: array, ptr });
        assert(self@ =~= old(self)@.push((stored_name(name@), ptr)));
    }

    /// The address of the first registered symbol whose stored name starts
    /// with `name`, cut to 24 bytes and before its first zero byte, if any.
    fn find(&self, name: &[u8]) -> (r: Option<u64>)
        ensures
            r == find_symbol(self@, lookup_key(name@)),
    {
        let key_len = lookup_key_len(name);
        let ghost key = lookup_key(name@);
        let ghost v = self@;
        let mut i: usize = 0;
        assert(v.skip(0) =~= v);
        while i < self.symbols.len()
            invariant
                v == self@,
                v.len() == self.symbols@.len(),
                forall|j: int| 0 <= j < v.len() ==> #[trigger] v[j] == symbol_view(self.symbols@[j]),
                0 <= i <= v.len(),
                key == name@.take(key_len as int),
                key == lookup_key(name@),
                key_len <= name@.len(),
                find_symbol(v.skip(i as int), key) == find_symbol(v, key),
            decreases self.symbols.len() - i,
        {
            assert(v[i as int] == symbol_view(self.symbols@[i as int]));
            if starts_with_prefix(&self.symbols[i].name, name, key_len) {
                assert(v.skip(i as int)[0] == v[i as int]);
                assert(v.skip(i as int).len() > 0);
                assert(name_matches(v.skip(i as int)[0].0, key));
                assert(find_symbol(v.skip(i as int), key) == Some(v[i as int].1));
                assert(v[i as int].1 == self.symbols@[i as int].ptr);
                return Some(self.symbols[i].ptr);
            }
            proof {
                lemma_find_symbol_skip(v, key, i as int);
            }
            i = i + 1;
        }
        assert(v.skip(i as int).len() == 0);
        None
    }

    /// Whether some registered symbol matches `name` as `get_symbol_ptr` looks it up.
    pub fn contains_symbol(&self, name: &[u8]) -> (r: bool)
        ensures
            r == find_symbol(self@, lookup_key(name@)) is Some,
    {
        self.find(name).is_some()
    }

    /// The address of the first registered symbol whose stored name starts
    /// with `name`, cut to 24 bytes and before its first zero byte. Such a
    /// symbol must exist.
    pub fn get_symbol_ptr(&self, name: &[u8]) -> (r: u64)
        requires
            find_symbol(self@, lookup_key(name@)) is Some,
        ensures
            find_symbol(self@, lookup_key(name@)) == Some(r),
    {
        self.find(name).unwrap()
    }
}

/// A lookup finds the address of the earliest registered symbol whose stored
/// name agrees with every byte of the key, and finds nothing when no stored
/// name does.
pub proof fn lookup_compares_every_key_byte(symbols: Seq<(Seq<u8>, u64)>, key: Seq<u8>)
    ensures
        find_symbol(symbols, key) is Some <==> exists|i: int|
            0 <= i < symbols.len() && key.len() <= symbols[i].0.len() && forall|j: int|
                0 <= j < key.len() ==> symbols[i].0[j] == key[j],
        forall|i: int|
            0 <= i < symbols.len() && key.len() <= symbols[i].0.len() && (forall|j: int|
                0 <= j < key.len() ==> symbols[i].0[j] == key[j]) && (forall|k: int|
                0 <= k < i ==> !(key.len() <= symbols[k].0.len() && forall|j: int|
                    0 <= j < key.len() ==> symbols[k].0[j] == key[j])) ==> find_symbol(symbols, key)
                == Some(symbols[i].1),
    decreases symbols.len(),
{
    assert forall|s: Seq<u8>| name_matches(s, key) <==> (key.len() <= s.len() && forall|j: int|
        0 <= j < key.len() ==> s[j] == key[j]) by {
        if key.len() <= s.len() && forall|j: int| 0 <= j < key.len() ==> s[j] == key[j] {
            assert(s.take(key.len() as int) =~= key);
        }
        if name_matches(s, key) {
            assert forall|j: int| 0 <= j < key.len() implies s[j] == key[j] by {
                assert(s.take(key.len() as int)[j] == s[j]);
            }
        }
    }
    if symbols.len() > 0 {
        lookup_compares_every_key_byte(symbols.drop_first(), key);
        assert forall|i: int| 0 < i < symbols.len() implies symbols.drop_first()[i - 1] == #[trigger] symbols[i] by {}
        if find_symbol(symbols, key) is Some && !name_matches(symbols[0].0, key) {
            let i = choose|i: int|
                0 <= i < symbols.drop_first().len() && key.len() <= symbols.drop_first()[i].0.len()
                    && forall|j: int| 0 <= j < key.len() ==> symbols.drop_first()[i].0[j] == key[j];
            assert(symbols[i + 1] == symbols.drop_first()[i]);
        }
        if exists|i: int|
            0 <= i < symbols.len() && key.len() <= symbols[i].0.len() && forall|j: int|
                0 <= j < key.len() ==> symbols[i].0[j] == key[j] {
            let i = choose|i: int|
                0 <= i < symbols.len() && key.len() <= symbols[i].0.len() && forall|j: int|
                    0 <= j < key.len() ==> symbols[i].0[j] == key[j];
            if i > 0 && !name_matches(symbols[0].0, key) {
                assert(symbols.drop_first()[i - 1] == symbols[i]);
            }
        }
        assert forall|i: int|
            0 <= i < symbols.len() && key.len() <= symbols[i].0.len() && (forall|j: int|
                0 <= j < key.len() ==> symbols[i].0[j] == key[j]) && (forall|k: int|
                0 <= k < i ==> !(key.len() <= symbols[k].0.len() && forall|j: int|
                    0 <= j < key.len() ==> symbols[k].0[j] == key[j])) implies find_symbol(symbols, key)
                == Some(symbols[i].1) by {
            if i > 0 {
                assert(!name_matches(symbols[0].0, key));
                let d = symbols.drop_first();
                assert(d[i - 1] == symbols[i]);
                assert forall|k: int| 0 <= k < i - 1 implies !(key.len() <= d[k].0.len() && forall|j: int|
                    0 <= j < key.len() ==> d[k].0[j] == key[j]) by {
                    assert(d[k] == symbols[k + 1]);
                }
            }
        }
    }
}

/// A name's lookup key always matches its stored form.
pub proof fn stored_name_matches_key(name: Seq<u8>)
    ensures
        name_matches(stored_name(name), lookup_key(name)),
{
    let t = if name.len() >= 24 {
        name.take(24)
    } else {
        name
    };
    assert(exists|c: int| key_end(t, c)) by {
        lemma_first_zero(t, 0);
    }
    let c = choose|c: int| key_end(t, c);
    assert(stored_name(name).take(c) =~= t.take(c));
}

/// The index of the first zero byte of `t` at or after `from`, or `t.len()`.
spec fn first_zero(t: Seq<u8>, from: int) -> int
    decreases t.len() - from,
{
    if from >= t.len() || from < 0 {
        t.len() as int
    } else if t[from] == 0 {
        from
    } else {
        first_zero(t, from + 1)
    }
}

proof fn lemma_first_zero(t: Seq<u8>, from: int)
    requires
        0 <= from <= t.len(),
        forall|j: int| 0 <= j < from ==> t[j] != 0,
    ensures
        key_end(t, first_zero(t, from)),
    decreases t.len() - from,
{
    if from < t.len() && t[from] != 0 {
        lemma_first_zero(t, from + 1);
    }
}

/// Registering appends to the table, and a lookup by the name just registered
/// always finds a symbol: the earliest one whose name matches, which is the
/// new symbol when none registered before matches.
pub proof fn lookup_after_register(symbols: Seq<(Seq<u8>, u64)>, name: Seq<u8>, ptr: u64)
    ensures
        find_symbol(symbols.push((stored_name(name), ptr)), lookup_key(name))
            == match find_symbol(symbols, lookup_key(name)) {
            Some(p) => Some(p),
            None => Some(ptr),
        },
    decreases symbols.len(),
{
    let sym = (stored_name(name), ptr);
    stored_name_matches_key(name);
    if symbols.len() == 0 {
        assert(symbols.push(sym).drop_first() =~= Seq::<(Seq<u8>, u64)>::empty());
    } else {
        assert(symbols.push(sym)[0] == symbols[0]);
        assert(symbols.push(sym).drop_first() =~= symbols.drop_first().push(sym));
        lookup_after_register(symbols.drop_first(), name, ptr);
    }
}

} // verus!

use vstd::prelude::*;
use vstd::slice::slice_subrange;

verus! {

/// Byte that closes a text run and starts sequence mode for the next one.
pub const SEQUENCE_SEPARATOR: u8 = 0xFE;

/// Byte that closes a text run and ends the entry of the current glyph.
pub const ENTRY_TERMINATOR: u8 = 0xFF;

/// Translation table: maps a key of one or more codepoints to a glyph index.
///
/// The map is a hashbrown `HashMap` with the Fx hasher, held out of Verus's sight;
/// the trusted methods below state what each call does to its contents.
#[verifier::external_body]
pub struct GlyphTable {
    map: hashbrown::HashMap<String, u32, core::hash::BuildHasherDefault<rustc_hash::FxHasher>>,
}

/// The bindings that a translation table holds.
pub uninterp spec fn table_contents(t: GlyphTable) -> Map<Seq<char>, u32>;

/// The text that a byte sequence encodes as UTF-8, or `None` where the bytes are not valid UTF-8.
pub uninterp spec fn utf8_text(b: Seq<u8>) -> Option<Seq<char>>;

impl View for GlyphTable {
    type V = Map<Seq<char>, u32>;

    open spec fn view(&self) -> Map<Seq<char>, u32> {
        table_contents(*self)
    }
}

/// Relies on `core::str::from_utf8`: it accepts a byte slice exactly when it is valid
/// UTF-8, and the text then depends on the bytes alone.
#[verifier::external_body]
fn decode_utf8(b: &[u8]) -> (r: Option<String>)
    ensures
        match r {
            Some(s) => utf8_text(b@) == Some(s@),
            None => utf8_text(b@) is None,
        },
{
    match core::str::from_utf8(b) {
        Ok(s) => Some(String::from(s)),
        Err(_) => None,
    }
}

/// Relies on `String::from(char)`: a string holding that one character.
#[verifier::external_body]
pub(crate) fn char_string(c: char) -> (r: String)
    ensures
        r@ == seq![c],
{
    String::from(c)
}

/// The map after binding each codepoint of `s`, one at a time, to `v`.
pub open spec fn bind_each(m: Map<Seq<char>, u32>, s: Seq<char>, v: u32) -> Map<Seq<char>, u32>
    decreases s.len(),
{
    if s.len() == 0 {
        m
    } else {
        bind_each(m, s.drop_last(), v).insert(seq![s.last()], v)
    }
}

/// The map after reading one closed text run for glyph `v`: a run that is not valid
/// UTF-8 changes nothing; in sequence mode the whole run is one key, otherwise each of
/// its codepoints is a key of its own.
pub open spec fn with_run(m: Map<Seq<char>, u32>, run: Seq<u8>, in_sequence: bool, v: u32) -> Map<
    Seq<char>,
    u32,
> {
    match utf8_text(run) {
        None => m,
        Some(s) => if in_sequence {
            m.insert(s, v)
        } else {
            bind_each(m, s, v)
        },
    }
}

/// The glyph counter after an entry ends; it wraps at the top of its range.
pub open spec fn next_index(v: u32) -> u32 {
    if v == u32::MAX {
        0
    } else {
        (v + 1) as u32
    }
}

/// The scanner's state after reading the first `n` bytes of a table:
/// (start of the open run, sequence mode, current glyph, bindings so far).
pub open spec fn scan(t: Seq<u8>, n: nat) -> (int, bool, u32, Map<Seq<char>, u32>)
    decreases n,
{
    if n == 0 || n > t.len() {
        (0, false, 0, Map::empty())
    } else {
        let prev = scan(t, (n - 1) as nat);
        let i = n - 1;
        let x = t[i];
        if x == ENTRY_TERMINATOR {
            (n as int, false, next_index(prev.2), with_run(prev.3, t.subrange(prev.0, i), prev.1, prev.2))
        } else if x == SEQUENCE_SEPARATOR {
            (n as int, true, prev.2, with_run(prev.3, t.subrange(prev.0, i), prev.1, prev.2))
        } else {
            prev
        }
    }
}

/// The bindings that a whole table section describes.
pub open spec fn translation(t: Seq<u8>) -> Map<Seq<char>, u32> {
    scan(t, t.len()).3
}

/// The glyph index that a key resolves to: its binding in the table, else for a single
/// ASCII codepoint that codepoint's value.
pub open spec fn resolve(m: Map<Seq<char>, u32>, key: Seq<char>) -> Option<u32> {
    if m.contains_key(key) {
        Some(m[key])
    } else if key.len() == 1 && (key[0] as u32) < 0x80 {
        Some(key[0] as u32)
    } else {
        None
    }
}

/// Binding each codepoint of `s` to `v` leaves every one of them bound to `v`.
proof fn lemma_bind_each(m: Map<Seq<char>, u32>, s: Seq<char>, v: u32)
    ensures
        forall|j: int|
            #![trigger s[j]]
            0 <= j < s.len() ==> bind_each(m, s, v).contains_key(seq![s[j]]) && bind_each(m, s, v)[seq![s[j]]] == v,
    decreases s.len(),
{
    if s.len() > 0 {
        let p = s.drop_last();
        lemma_bind_each(m, p, v);
        assert forall|j: int| 0 <= j < s.len() implies bind_each(m, s, v).contains_key(
            seq![s[j]],
        ) && bind_each(m, s, v)[seq![s[j]]] == v by {
            if j < s.len() - 1 {
                assert(p[j] == s[j]);
            }
        }
    }
}

/// A valid run read outside sequence mode binds each of its codepoints, one by one, to
/// the glyph; read in sequence mode, it binds only the whole run, as one key, to the
/// glyph, and every other key keeps its binding.
pub proof fn lemma_run_bindings(m: Map<Seq<char>, u32>, run: Seq<u8>, in_sequence: bool, v: u32)
    requires
        utf8_text(run) is Some,
    ensures
        !in_sequence ==> forall|j: int|
            #![trigger utf8_text(run)->0[j]]
            0 <= j < utf8_text(run)->0.len() ==> with_run(m, run, in_sequence, v).contains_key(
                seq![utf8_text(run)->0[j]],
            ) && with_run(m, run, in_sequence, v)[seq![utf8_text(run)->0[j]]] == v,
        in_sequence ==> with_run(m, run, in_sequence, v) == m.insert(utf8_text(run)->0, v),
{
    lemma_bind_each(m, utf8_text(run)->0, v);
}

impl GlyphTable {
    /// Relies on hashbrown's `HashMap::default`: a new map holds no bindings.
    #[verifier::external_body]
    fn empty() -> (r: GlyphTable)
        ensures
            forall|k: Seq<char>| !table_contents(r).contains_key(k),
    {
        GlyphTable { map: hashbrown::HashMap::default() }
    }

    /// Relies on hashbrown's `HashMap::insert`: the key is bound to the value, replacing
    /// an earlier binding of an equal key; other keys keep theirs.
    #[verifier::external_body]
    fn insert(&mut self, key: String, v: u32)
        ensures
            table_contents(*final(self)) == table_contents(*old(self)).insert(key@, v),
    {
        self.map.insert(key, v);
    }

    /// Relies on hashbrown's `HashMap::get`: the value bound to a key equal to `key`, if any.
    #[verifier::external_body]
    fn get(&self, key: &str) -> (r: Option<u32>)
        ensures
            r == (if table_contents(*self).contains_key(key@) {
                Some(table_contents(*self)[key@])
            } else {
                None
            }),
    {
        self.map.get(key).copied()
    }

    /// A table with no bindings.
    pub fn new() -> (r: GlyphTable)
        ensures
            r@ == Map::<Seq<char>, u32>::empty(),
    {
        let r = GlyphTable::empty();
        assert(r@ =~= Map::<Seq<char>, u32>::empty());
        r
    }

    /// Reads one closed text run for glyph `v` into the table.
    fn add_run(&mut self, run: &[u8], in_sequence: bool, v: u32)
        ensures
            final(self)@ == with_run(old(self)@, run@, in_sequence, v),
    {
        match decode_utf8(run) {
            None => {},
            Some(s) => {
                if in_sequence {
                    self.insert(s, v);
                } else {
                    let n = s.as_str().unicode_len();
                    let mut j: usize = 0;
                    while j < n
                        invariant
                            j <= n,
                            n == s@.len(),
                            utf8_text(run@) == Some(s@),
                            self@ == bind_each(old(self)@, s@.subrange(0, j as int), v),
                        decreases n - j,
                    {
                        let c = s.as_str().get_char(j);
                        self.insert(char_string(c), v);
                        proof {
                            assert(s@.subrange(0, j + 1).drop_last() =~= s@.subrange(0, j as int));
                        }
                        j += 1;
                    }
                    proof {
                        assert(s@.subrange(0, n as int) =~= s@);
                    }
                }
            },
        }
    }

    /// Builds the table that the bytes after the glyph bitmaps describe.
    ///
    /// The bytes are runs of UTF-8 text closed by `0xFE` or `0xFF`. Each `0xFF` ends the
    /// entry of one glyph, counting from glyph 0. In an entry, the first run binds each of
    /// its codepoints to the glyph; every run after a `0xFE` or a further run binds
    /// as a whole. Runs that are not valid UTF-8 are skipped.
    pub fn parse(t: &[u8]) -> (r: GlyphTable)
        ensures
            r@ == translation(t@),
    {
        let mut table = GlyphTable::new();
        let mut index: u32 = 0;
        let mut start: usize = 0;
        let mut in_sequence = false;
        let mut i: usize = 0;
        while i < t.len()
            invariant
                i <= t@.len(),
                start <= i,
                scan(t@, i as nat) == (start as int, in_sequence, index, table@),
            decreases t.len() - i,
        {
            let x = t[i];
            if x == ENTRY_TERMINATOR || x == SEQUENCE_SEPARATOR {
                let run = slice_subrange(t, start, i);
                table.add_run(run, in_sequence, index);
                start = i + 1;
                in_sequence = true;
            }
            if x == ENTRY_TERMINATOR {
                index = if index == u32::MAX {
                    0
                } else {
                    index + 1
                };
                in_sequence = false;
            }
            i += 1;
        }
        table
    }

    /// The glyph index for a key of one or more codepoints: its binding if the table has
    /// one, else, for a single ASCII codepoint, that codepoint's value.
    pub fn lookup(&self, key: &str) -> (r: Option<u32>)
        ensures
            r == resolve(self@, key@),
    {
        match self.get(key) {
            Some(v) => Some(v),
            None => {
                if key.unicode_len() == 1 {
                    let c = key.get_char(0);
                    if (c as u32) < 0x80 {
                        Some(c as u32)
                    } else {
                        None
                    }
                } else {
                    None
                }
            },
        }
    }
}

} // verus!

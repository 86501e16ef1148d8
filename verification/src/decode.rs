//! The symbol decoder: maps classified events to Morse symbols, splits
//! the symbol stream into words and letters, and resolves each letter
//! through the static code table.

use vstd::prelude::*;

use crate::classify::best_error;
use crate::classify::spec_best_error;
use crate::estimate::events_wf;
use crate::types::LightState;
use crate::types::Morse;
use crate::types::MorseCandidate;
use crate::types::TimedLightEvent;

verus! {

/// The Morse symbol of a winning catalog candidate; anything outside the
/// five-entry catalog is the error sentinel.
pub open spec fn spec_mc_to_morse(mc: MorseCandidate) -> Morse {
    if mc.light_state == LightState::Light && mc.units == 1 {
        Morse::Dot
    } else if mc.light_state == LightState::Light && mc.units == 3 {
        Morse::Dash
    } else if mc.light_state == LightState::Dark && mc.units == 1 {
        Morse::SymbolGap
    } else if mc.light_state == LightState::Dark && mc.units == 3 {
        Morse::LetterGap
    } else if mc.light_state == LightState::Dark && mc.units == 7 {
        Morse::WordGap
    } else {
        Morse::Error
    }
}

/// Maps a winning candidate to its Morse symbol.
pub fn mc_to_morse(mc: &MorseCandidate) -> (m: Morse)
    ensures
        m == spec_mc_to_morse(*mc),
{
    match mc.light_state {
        LightState::Light => {
            if mc.units == 1 {
                Morse::Dot
            } else if mc.units == 3 {
                Morse::Dash
            } else {
                Morse::Error
            }
        },
        LightState::Dark => {
            if mc.units == 1 {
                Morse::SymbolGap
            } else if mc.units == 3 {
                Morse::LetterGap
            } else if mc.units == 7 {
                Morse::WordGap
            } else {
                Morse::Error
            }
        },
    }
}

/// The Morse symbol of one event under unit duration `u`: the symbol of
/// its best catalog match, or the error sentinel when classification
/// fails.
pub open spec fn spec_symbol_of(e: TimedLightEvent, u: int) -> Morse {
    match spec_best_error(e, u) {
        Some(b) => spec_mc_to_morse(b.0),
        None => Morse::Error,
    }
}

/// The symbol stream of an event sequence under unit duration `u`.
pub open spec fn spec_symbols(s: Seq<TimedLightEvent>, u: int) -> Seq<Morse> {
    s.map_values(|e: TimedLightEvent| spec_symbol_of(e, u))
}

/// Re-classifies every event under the estimated unit duration and maps
/// each to its Morse symbol.
pub fn decode_symbols(events: &[TimedLightEvent], unit_millis: i64) -> (v: Vec<Morse>)
    requires
        events_wf(events@),
        0 <= unit_millis,
        7 * unit_millis <= i64::MAX,
    ensures
        v@ == spec_symbols(events@, unit_millis as int),
{
    let ghost u = unit_millis as int;
    let mut v: Vec<Morse> = Vec::new();
    let mut i: usize = 0;
    while i < events.len()
        invariant
            u == unit_millis as int,
            events_wf(events@),
            0 <= unit_millis,
            7 * unit_millis <= i64::MAX,
            i <= events@.len(),
            v@.len() == i,
            forall|j: int| 0 <= j < i ==> v@[j] == spec_symbol_of(events@[j], u),
        decreases events@.len() - i,
    {
        let event = events[i];
        let m = match best_error(&event, unit_millis) {
            Ok(s) => mc_to_morse(&s.item),
            Err(_) => Morse::Error,
        };
        v.push(m);
        i += 1;
    }
    proof {
        assert(v@ =~= spec_symbols(events@, u));
    }
    v
}

/// Splitting a symbol sequence on a delimiter, scanned left to right:
/// there is always one group open, a delimiter closes it and opens a new
/// one, and any other symbol joins the open group. The result therefore
/// always holds at least one (possibly empty) group.
pub open spec fn spec_split(s: Seq<Morse>, d: Morse) -> Seq<Seq<Morse>>
    decreases s.len(),
{
    if s.len() == 0 {
        seq![Seq::empty()]
    } else {
        let pre = spec_split(s.drop_last(), d);
        if s.last() == d {
            pre.push(Seq::empty())
        } else {
            pre.update(pre.len() - 1, pre.last().push(s.last()))
        }
    }
}

/// A split always yields at least one group.
pub proof fn lemma_split_len(s: Seq<Morse>, d: Morse)
    ensures
        spec_split(s, d).len() >= 1,
    decreases s.len(),
{
    if s.len() > 0 {
        lemma_split_len(s.drop_last(), d);
    }
}

/// The groups of a vector of symbol groups, as mathematical sequences.
pub open spec fn groups_of(v: Seq<Vec<Morse>>) -> Seq<Seq<Morse>> {
    v.map_values(|g: Vec<Morse>| g@)
}

/// Splits a symbol slice on the delimiter `on`. A delimiter closes the
/// current group and opens a new one, so `k` delimiters yield `k + 1`
/// groups, empty groups included.
pub fn split_slice(sl: &[Morse], on: Morse) -> (v: Vec<Vec<Morse>>)
    ensures
        groups_of(v@) == spec_split(sl@, on),
{
    let ghost whole = sl@;
    let mut v: Vec<Vec<Morse>> = Vec::new();
    let mut cur: Vec<Morse> = Vec::new();
    let mut i: usize = 0;
    while i < sl.len()
        invariant
            whole == sl@,
            i <= whole.len(),
            spec_split(whole.take(i as int), on) =~= groups_of(v@).push(cur@),
        decreases whole.len() - i,
    {
        let m = sl[i];
        proof {
            assert(whole.take(i as int + 1).drop_last() =~= whole.take(i as int));
            assert(whole.take(i as int + 1).last() == whole[i as int]);
            lemma_split_len(whole.take(i as int), on);
        }
        if m == on {
            let ghost vg = v@;
            let ghost cg = cur@;
            v.push(cur);
            cur = Vec::new();
            proof {
                assert(groups_of(v@) =~= groups_of(vg).push(cg));
                assert(spec_split(whole.take(i as int + 1), on) =~= groups_of(v@).push(cur@));
            }
        } else {
            cur.push(m);
            proof {
                assert(spec_split(whole.take(i as int + 1), on) =~= groups_of(v@).push(cur@));
            }
        }
        i += 1;
    }
    proof {
        assert(whole.take(whole.len() as int) =~= whole);
    }
    let ghost vg = v@;
    let ghost cg = cur@;
    v.push(cur);
    proof {
        assert(groups_of(v@) =~= groups_of(vg).push(cg));
        assert(groups_of(v@) =~= spec_split(whole, on));
    }
    v
}

/// A symbol that carries pattern information: a dot or a dash.
pub open spec fn is_dot_dash(m: Morse) -> bool {
    m == Morse::Dot || m == Morse::Dash
}

/// The table key of a dot/dash pattern: a one bit followed by one bit
/// per symbol, dot as zero and dash as one. The leading one keeps
/// patterns of different lengths at different keys.
pub open spec fn pattern_key(p: Seq<Morse>) -> int
    decreases p.len(),
{
    if p.len() == 0 {
        1
    } else {
        2 * pattern_key(p.drop_last()) + (if p.last() == Morse::Dash {
            1int
        } else {
            0int
        })
    }
}

/// The pattern whose table key is `k`: the bits of `k` below its leading
/// one, most significant first.
pub open spec fn key_pattern(k: int) -> Seq<Morse>
    decreases k,
{
    if k <= 1 {
        Seq::empty()
    } else {
        key_pattern(k / 2).push(
            if k % 2 == 1 {
                Morse::Dash
            } else {
                Morse::Dot
            },
        )
    }
}

/// The letter at table key `k`, or the sentinel for an unmapped key.
pub open spec fn char_of_key(k: int) -> char {
    if k == 5 {
        'a'
    } else if k == 24 {
        'b'
    } else if k == 26 {
        'c'
    } else if k == 12 {
        'd'
    } else if k == 2 {
        'e'
    } else if k == 18 {
        'f'
    } else if k == 14 {
        'g'
    } else if k == 16 {
        'h'
    } else if k == 4 {
        'i'
    } else if k == 23 {
        'j'
    } else if k == 13 {
        'k'
    } else if k == 20 {
        'l'
    } else if k == 7 {
        'm'
    } else if k == 6 {
        'n'
    } else if k == 15 {
        'o'
    } else if k == 22 {
        'p'
    } else if k == 29 {
        'q'
    } else if k == 10 {
        'r'
    } else if k == 8 {
        's'
    } else if k == 3 {
        't'
    } else if k == 9 {
        'u'
    } else if k == 17 {
        'v'
    } else if k == 11 {
        'w'
    } else if k == 25 {
        'x'
    } else if k == 27 {
        'y'
    } else if k == 28 {
        'z'
    } else {
        '?'
    }
}

/// The table key of a letter, or zero for anything the table does not
/// cover.
pub open spec fn char_key(c: char) -> int {
    if c == 'a' {
        5
    } else if c == 'b' {
        24
    } else if c == 'c' {
        26
    } else if c == 'd' {
        12
    } else if c == 'e' {
        2
    } else if c == 'f' {
        18
    } else if c == 'g' {
        14
    } else if c == 'h' {
        16
    } else if c == 'i' {
        4
    } else if c == 'j' {
        23
    } else if c == 'k' {
        13
    } else if c == 'l' {
        20
    } else if c == 'm' {
        7
    } else if c == 'n' {
        6
    } else if c == 'o' {
        15
    } else if c == 'p' {
        22
    } else if c == 'q' {
        29
    } else if c == 'r' {
        10
    } else if c == 's' {
        8
    } else if c == 't' {
        3
    } else if c == 'u' {
        9
    } else if c == 'v' {
        17
    } else if c == 'w' {
        11
    } else if c == 'x' {
        25
    } else if c == 'y' {
        27
    } else if c == 'z' {
        28
    } else {
        0
    }
}

/// A pattern the code table can hold: one to four symbols, dots and
/// dashes only.
pub open spec fn valid_pattern(p: Seq<Morse>) -> bool {
    &&& 1 <= p.len() <= 4
    &&& forall|i: int| 0 <= i < p.len() ==> is_dot_dash(#[trigger] p[i])
}

/// The code table lookup: the letter of a valid pattern's key, and the
/// sentinel for empty, overlong or degraded patterns.
pub open spec fn spec_lookup(p: Seq<Morse>) -> char {
    if valid_pattern(p) {
        char_of_key(pattern_key(p))
    } else {
        '?'
    }
}

/// The dot/dash pattern of a letter of the code table.
pub open spec fn spec_code(c: char) -> Seq<Morse> {
    key_pattern(char_key(c))
}

/// Table keys grow with pattern length: up to four symbols they stay
/// at most 31, and a nonempty pattern's key is at least 2.
pub proof fn lemma_pattern_key_range(p: Seq<Morse>)
    ensures
        pattern_key(p) >= 1,
        p.len() >= 1 ==> pattern_key(p) >= 2,
        p.len() <= 0 ==> pattern_key(p) <= 1,
        p.len() <= 1 ==> pattern_key(p) <= 3,
        p.len() <= 2 ==> pattern_key(p) <= 7,
        p.len() <= 3 ==> pattern_key(p) <= 15,
        p.len() <= 4 ==> pattern_key(p) <= 31,
    decreases p.len(),
{
    if p.len() > 0 {
        lemma_pattern_key_range(p.drop_last());
    }
}

/// The pattern of a key within the table range has at most four symbols,
/// at least one for keys of two and up, and holds dots and dashes only.
pub proof fn lemma_key_pattern_props(k: int)
    requires
        k <= 31,
    ensures
        k <= 1 ==> key_pattern(k).len() == 0,
        k <= 3 ==> key_pattern(k).len() <= 1,
        k <= 7 ==> key_pattern(k).len() <= 2,
        k <= 15 ==> key_pattern(k).len() <= 3,
        key_pattern(k).len() <= 4,
        k >= 2 ==> key_pattern(k).len() >= 1,
        forall|i: int| 0 <= i < key_pattern(k).len() ==> is_dot_dash(#[trigger] key_pattern(k)[i]),
    decreases
        (if k >= 0 {
            k
        } else {
            0
        }),
{
    if k >= 2 {
        lemma_key_pattern_props(k / 2);
        let tail = if k % 2 == 1 {
            Morse::Dash
        } else {
            Morse::Dot
        };
        assert(key_pattern(k) == key_pattern(k / 2).push(tail));
        assert forall|i: int| 0 <= i < key_pattern(k).len() implies is_dot_dash(
            #[trigger] key_pattern(k)[i],
        ) by {
            if i < key_pattern(k / 2).len() {
                assert(key_pattern(k)[i] == key_pattern(k / 2)[i]);
            } else {
                assert(key_pattern(k)[i] == tail);
            }
        }
    }
}

/// Reading a pattern back from its key recovers the key: the two
/// directions of the key encoding invert each other.
pub proof fn lemma_key_pattern_roundtrip(k: int)
    requires
        k >= 1,
    ensures
        pattern_key(key_pattern(k)) == k,
    decreases k,
{
    if k >= 2 {
        lemma_key_pattern_roundtrip(k / 2);
        let tail = if k % 2 == 1 {
            Morse::Dash
        } else {
            Morse::Dot
        };
        assert(key_pattern(k).drop_last() =~= key_pattern(k / 2));
        assert(key_pattern(k).last() == tail);
        assert(2 * (k / 2) + k % 2 == k);
    }
}

/// Encoding any letter of the code table and looking the pattern up
/// again returns that letter.
pub proof fn lemma_code_roundtrip(c: char)
    requires
        'a' <= c <= 'z',
    ensures
        spec_lookup(spec_code(c)) == c,
{
    let k = char_key(c);
    assert(2 <= k <= 29);
    lemma_key_pattern_props(k);
    lemma_key_pattern_roundtrip(k);
    assert(valid_pattern(spec_code(c)));
    assert(char_of_key(k) == c);
}

/// The letter at a table key, or the sentinel for an unmapped key.
fn char_for_key(k: u32) -> (c: char)
    ensures
        c == char_of_key(k as int),
{
    match k {
        5 => 'a',
        24 => 'b',
        26 => 'c',
        12 => 'd',
        2 => 'e',
        18 => 'f',
        14 => 'g',
        16 => 'h',
        4 => 'i',
        23 => 'j',
        13 => 'k',
        20 => 'l',
        7 => 'm',
        6 => 'n',
        15 => 'o',
        22 => 'p',
        29 => 'q',
        10 => 'r',
        8 => 's',
        3 => 't',
        9 => 'u',
        17 => 'v',
        11 => 'w',
        25 => 'x',
        27 => 'y',
        28 => 'z',
        _ => '?',
    }
}

/// Looks a letter group's dot/dash pattern up in the static code table.
/// Unknown, empty, overlong or degraded patterns resolve to the sentinel
/// `'?'`; the lookup itself never fails.
pub fn lookup_letter(pattern: &[Morse]) -> (c: char)
    ensures
        c == spec_lookup(pattern@),
{
    let n = pattern.len();
    if n == 0 || n > 4 {
        return '?';
    }
    let mut k: u32 = 1;
    let mut i: usize = 0;
    while i < n
        invariant
            n == pattern@.len(),
            1 <= n <= 4,
            i <= n,
            k as int == pattern_key(pattern@.take(i as int)),
            forall|j: int| 0 <= j < i ==> is_dot_dash(#[trigger] pattern@[j]),
        decreases n - i,
    {
        proof {
            lemma_pattern_key_range(pattern@.take(i as int));
            assert(pattern@.take(i as int + 1).drop_last() =~= pattern@.take(i as int));
            assert(pattern@.take(i as int + 1).last() == pattern@[i as int]);
        }
        let m = pattern[i];
        match m {
            Morse::Dot => {
                k = 2 * k;
            },
            Morse::Dash => {
                k = 2 * k + 1;
            },
            _ => {
                return '?';
            },
        }
        i += 1;
    }
    proof {
        assert(pattern@.take(n as int) =~= pattern@);
        assert(valid_pattern(pattern@));
    }
    char_for_key(k)
}

/// The pattern of a table key: the key's bits below its leading one,
/// most significant first.
fn key_to_pattern(k: u32) -> (v: Vec<Morse>)
    ensures
        v@ == key_pattern(k as int),
    decreases k,
{
    if k <= 1 {
        let v: Vec<Morse> = Vec::new();
        proof {
            assert(v@ =~= key_pattern(k as int));
        }
        v
    } else {
        let mut v = key_to_pattern(k / 2);
        if k % 2 == 1 {
            v.push(Morse::Dash);
        } else {
            v.push(Morse::Dot);
        }
        v
    }
}

/// The dot/dash pattern of a letter: `Some` with the letter's pattern
/// for `'a'` through `'z'`, `None` for anything the code table does not
/// cover.
pub fn letter_code(c: char) -> (r: Option<Vec<Morse>>)
    ensures
        (match r {
            Some(v) => 'a' <= c <= 'z' && v@ == spec_code(c),
            None => !('a' <= c <= 'z'),
        }),
{
    if c < 'a' || c > 'z' {
        return None;
    }
    let k: u32 = match c {
        'a' => 5,
        'b' => 24,
        'c' => 26,
        'd' => 12,
        'e' => 2,
        'f' => 18,
        'g' => 14,
        'h' => 16,
        'i' => 4,
        'j' => 23,
        'k' => 13,
        'l' => 20,
        'm' => 7,
        'n' => 6,
        'o' => 15,
        'p' => 22,
        'q' => 29,
        'r' => 10,
        's' => 8,
        't' => 3,
        'u' => 9,
        'v' => 17,
        'w' => 11,
        'x' => 25,
        'y' => 27,
        'z' => 28,
        _ => 0,
    };
    proof {
        assert(k as int == char_key(c));
    }
    Some(key_to_pattern(k))
}

/// A letter group with its intra-symbol gaps dropped: the gaps separate
/// dots and dashes but carry no pattern information.
pub open spec fn strip_gaps(p: Seq<Morse>) -> Seq<Morse>
    decreases p.len(),
{
    if p.len() == 0 {
        Seq::empty()
    } else if p.last() == Morse::SymbolGap {
        strip_gaps(p.drop_last())
    } else {
        strip_gaps(p.drop_last()).push(p.last())
    }
}

/// The characters of one word group: the word is split on letter gaps,
/// each letter group is stripped of its symbol gaps and resolved through
/// the code table.
pub open spec fn spec_decode_word(w: Seq<Morse>) -> Seq<char> {
    spec_split(w, Morse::LetterGap).map_values(|g: Seq<Morse>| spec_lookup(strip_gaps(g)))
}

/// The words of a symbol stream: the stream is split on word gaps and
/// each word group is decoded letter by letter.
pub open spec fn spec_translate(symbols: Seq<Morse>) -> Seq<Seq<char>> {
    spec_split(symbols, Morse::WordGap).map_values(|w: Seq<Morse>| spec_decode_word(w))
}

/// Drops every intra-symbol gap from a letter group.
fn strip_symbol_gaps(p: &[Morse]) -> (v: Vec<Morse>)
    ensures
        v@ == strip_gaps(p@),
{
    let mut v: Vec<Morse> = Vec::new();
    let mut i: usize = 0;
    while i < p.len()
        invariant
            i <= p@.len(),
            v@ == strip_gaps(p@.take(i as int)),
        decreases p@.len() - i,
    {
        proof {
            assert(p@.take(i as int + 1).drop_last() =~= p@.take(i as int));
            assert(p@.take(i as int + 1).last() == p@[i as int]);
        }
        let m = p[i];
        match m {
            Morse::SymbolGap => {},
            _ => {
                v.push(m);
            },
        }
        i += 1;
    }
    proof {
        assert(p@.take(p@.len() as int) =~= p@);
    }
    v
}

/// Decodes one word group into its characters, one per letter group,
/// with the sentinel for every letter group the code table cannot
/// resolve.
pub fn decode_word(word: &[Morse]) -> (chars: Vec<char>)
    ensures
        chars@ == spec_decode_word(word@),
{
    let groups = split_slice(word, Morse::LetterGap);
    let mut chars: Vec<char> = Vec::new();
    let mut i: usize = 0;
    while i < groups.len()
        invariant
            groups_of(groups@) == spec_split(word@, Morse::LetterGap),
            i <= groups@.len(),
            chars@.len() == i,
            forall|j: int|
                0 <= j < i ==> chars@[j] == spec_lookup(strip_gaps(groups_of(groups@)[j])),
        decreases groups@.len() - i,
    {
        let stripped = strip_symbol_gaps(groups[i].as_slice());
        let c = lookup_letter(stripped.as_slice());
        chars.push(c);
        i += 1;
    }
    proof {
        assert(chars@ =~= spec_decode_word(word@));
    }
    chars
}

/// Splits a symbol stream on word gaps and decodes each word group:
/// the ordered words of the transmission, with unrecognized letters
/// reported inline as the sentinel.
pub fn translate(symbols: &[Morse]) -> (words: Vec<Vec<char>>)
    ensures
        words@.map_values(|w: Vec<char>| w@) == spec_translate(symbols@),
{
    let groups = split_slice(symbols, Morse::WordGap);
    let mut words: Vec<Vec<char>> = Vec::new();
    let mut i: usize = 0;
    while i < groups.len()
        invariant
            groups_of(groups@) == spec_split(symbols@, Morse::WordGap),
            i <= groups@.len(),
            words@.len() == i,
            forall|j: int|
                0 <= j < i ==> (#[trigger] words@[j])@ == spec_decode_word(groups_of(groups@)[j]),
        decreases groups@.len() - i,
    {
        let w = decode_word(groups[i].as_slice());
        words.push(w);
        i += 1;
    }
    proof {
        assert(words@.map_values(|w: Vec<char>| w@) =~= spec_translate(symbols@));
    }
    words
}

/// Re-classifies every event under the estimated unit duration and
/// decodes the symbol stream into words.
pub fn decode_message(events: &[TimedLightEvent], unit_millis: i64) -> (words: Vec<Vec<char>>)
    requires
        events_wf(events@),
        0 <= unit_millis,
        7 * unit_millis <= i64::MAX,
    ensures
        words@.map_values(|w: Vec<char>| w@) == spec_translate(
            spec_symbols(events@, unit_millis as int),
        ),
{
    let symbols = decode_symbols(events, unit_millis);
    translate(symbols.as_slice())
}

} // verus!

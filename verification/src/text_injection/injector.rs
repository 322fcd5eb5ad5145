//! The text injector: what is typed, and in which pieces.
use crate::common::config;
use crate::common::config::Config;
use crate::text;
use crate::text_injection::chinese_convert;
use vstd::prelude::*;
use vstd::string::StringExecFns;

verus! {

/// The UTF-16 code units of a character.
pub open spec fn utf16_units(c: char) -> Seq<u16> {
    let v = c as int;
    if v < 0x1_0000 {
        seq![v as u16]
    } else {
        seq![(0xd800 + (v - 0x1_0000) / 0x400) as u16, (0xdc00 + (v - 0x1_0000) % 0x400) as u16]
    }
}

/// The UTF-16 code units of a text.
pub open spec fn utf16(s: Seq<char>) -> Seq<u16>
    decreases s.len(),
{
    if s.len() == 0 {
        seq![]
    } else {
        utf16(s.drop_last()) + utf16_units(s.last())
    }
}

/// `s` cut into pieces of `n` elements; the last may be shorter.
pub open spec fn pieces<T>(s: Seq<T>, n: nat) -> Seq<Seq<T>>
    decreases s.len(),
{
    if s.len() == 0 || n == 0 {
        seq![]
    } else if s.len() <= n {
        seq![s]
    } else {
        seq![s.take(n as int)] + pieces(s.skip(n as int), n)
    }
}

/// The code units that are typed for a text: line feeds become carriage returns.
pub open spec fn typed_units(s: Seq<char>) -> Seq<u16> {
    utf16(text::with_char_replaced(s, '\n', '\r'))
}

/// The number of code units per keystroke event: the configured one, or the
/// default where 0 is configured.
pub open spec fn piece_size(configured: u32) -> u32 {
    if configured == 0 {
        config::default_config().typing_chunk_size
    } else {
        configured
    }
}

/// A character's code point.
fn code_point(c: char) -> (r: u32)
    ensures
        r == c as int,
        r <= 0x10_ffff,
{
    c as u32
}

/// The UTF-16 code units of a text.
fn encode_utf16(cs: &Vec<char>) -> (r: Vec<u16>)
    ensures
        r@ == utf16(cs@),
{
    let mut out: Vec<u16> = Vec::new();
    let mut i: usize = 0;
    assert(cs@.take(0) =~= seq![]);
    while i < cs.len()
        invariant
            i <= cs@.len(),
            out@ == utf16(cs@.take(i as int)),
        decreases cs@.len() - i,
    {
        let c = cs[i];
        let v: u32 = code_point(c);
        let ghost before = out@;
        assert(cs@.take(i + 1).drop_last() =~= cs@.take(i as int));
        assert(cs@.take(i + 1).last() == c);
        if v < 0x1_0000 {
            out.push(v as u16);
        } else {
            let w: u32 = v - 0x1_0000;
            out.push((0xd800 + w / 0x400) as u16);
            out.push((0xdc00 + w % 0x400) as u16);
        }
        assert(out@ =~= before + utf16_units(c));
        i = i + 1;
    }
    assert(cs@.take(i as int) =~= cs@);
    out
}

/// The elements of nested vectors.
pub open spec fn nested_view(v: Seq<Vec<u16>>) -> Seq<Seq<u16>> {
    v.map_values(|x: Vec<u16>| x@)
}

/// Cuts code units into pieces.
fn cut(units: &Vec<u16>, n: usize) -> (r: Vec<Vec<u16>>)
    requires
        n > 0,
    ensures
        nested_view(r@) == pieces(units@, n as nat),
{
    let mut out: Vec<Vec<u16>> = Vec::new();
    let mut i: usize = 0;
    assert(units@.skip(0) =~= units@);
    assert(nested_view(out@) + pieces(units@, n as nat) =~= pieces(units@, n as nat));
    while i < units.len()
        invariant
            i <= units@.len(),
            n > 0,
            nested_view(out@) + pieces(units@.skip(i as int), n as nat) == pieces(
                units@,
                n as nat,
            ),
        decreases units@.len() - i,
    {
        let end: usize = if units.len() - i <= n {
            units.len()
        } else {
            i + n
        };
        let mut piece: Vec<u16> = Vec::new();
        let mut j: usize = i;
        while j < end
            invariant
                i <= j <= end <= units@.len(),
                piece@ == units@.subrange(i as int, j as int),
            decreases end - j,
        {
            piece.push(units[j]);
            j = j + 1;
            assert(units@.subrange(i as int, j as int) =~= units@.subrange(i as int, j - 1).push(
                units@[j - 1],
            ));
        }
        let ghost rest = units@.skip(i as int);
        let ghost before = nested_view(out@);
        let ghost view = piece@;
        out.push(piece);
        proof {
            assert(nested_view(out@) =~= before.push(view));
            if rest.len() <= n {
                assert(view =~= rest);
                assert(pieces(units@.skip(end as int), n as nat) =~= seq![]);
            } else {
                assert(view =~= rest.take(n as int));
                assert(rest.skip(n as int) =~= units@.skip(end as int));
            }
            assert(before.push(view) + pieces(units@.skip(end as int), n as nat) =~= before
                + pieces(rest, n as nat));
        }
        i = end;
    }
    assert(pieces(units@.skip(i as int), n as nat) =~= seq![]);
    assert(nested_view(out@) + pieces(units@.skip(i as int), n as nat) =~= nested_view(out@));
    out
}

/// How a run of a paste command ended.
#[derive(Debug)]
pub enum PasteRun {
    Success,
    /// The command failed; what it wrote to its error output.
    Failed(String),
    /// The command could not be run.
    NotRun,
}

/// Text injector: optional Chinese conversion, and the text in pieces for
/// simulated typing.
pub struct TextInjector {
    chinese_conversion: String,
    typing_chunk_size: u32,
    typing_delay_ms: u32,
}

impl TextInjector {
    /// The conversion mode.
    pub closed spec fn conversion(self) -> Seq<char> {
        self.chinese_conversion@
    }

    /// The configured number of code units per keystroke event.
    pub closed spec fn chunk_size(self) -> u32 {
        self.typing_chunk_size
    }

    /// The delay between keystroke events, in milliseconds.
    pub closed spec fn delay(self) -> u32 {
        self.typing_delay_ms
    }

    /// An injector with the configured settings.
    pub fn new(config: &Config) -> (r: TextInjector)
        ensures
            r.conversion() == config@.chinese_conversion,
            r.chunk_size() == config@.typing_chunk_size,
            r.delay() == config@.typing_delay_ms,
    {
        TextInjector {
            chinese_conversion: config.chinese_conversion.clone(),
            typing_chunk_size: config.typing_chunk_size,
            typing_delay_ms: config.typing_delay_ms,
        }
    }

    /// The text to inject: converted as configured. `transform` is the
    /// platform's transform (see [`chinese_convert::convert_chinese`]).
    pub fn prepare<F: Fn(&str, bool) -> Option<String>>(&self, text: &str, transform: F) -> (r:
        String)
        requires
            forall|reverse: bool| #[trigger] transform.requires((text, reverse)),
        ensures
            match chinese_convert::conversion_of(self.conversion()) {
                Some(reverse) => exists|answer: Option<String>|
                    #[trigger] transform.ensures((text, reverse), answer) && r@
                        == chinese_convert::converted_or(answer, text@),
                None => r@ == text@,
            },
    {
        chinese_convert::convert_chinese(text, self.chinese_conversion.as_str(), transform)
    }

    /// The configured code units per keystroke event, and the delay between the
    /// events.
    pub fn typing(&self) -> (r: (u32, u32))
        ensures
            r == (self.chunk_size(), self.delay()),
    {
        (self.typing_chunk_size, self.typing_delay_ms)
    }

    /// What is typed for a text, one keystroke event per piece.
    pub fn keystrokes(&self, text: &str) -> (r: Vec<Vec<u16>>)
        ensures
            nested_view(r@) == pieces(typed_units(text@), piece_size(self.chunk_size()) as nat),
    {
        let cs = text::chars_of(text);
        let normalized = text::replace_char(&cs, '\n', '\r');
        let units = encode_utf16(&normalized);
        let size: u32 = if self.typing_chunk_size == 0 {
            config::default_typing_chunk_size()
        } else {
            self.typing_chunk_size
        };
        cut(&units, size as usize)
    }
}

/// Whether the text is pasted after the first paste command; otherwise the
/// second is tried.
pub fn pasted_by_xdotool(run: &PasteRun) -> (r: bool)
    ensures
        r == (run is Success),
{
    match run {
        PasteRun::Success => true,
        _ => false,
    }
}

/// The outcome of pasting after the second paste command.
pub fn pasted_by_wtype(run: &PasteRun) -> (r: Result<(), String>)
    ensures
        match *run {
            PasteRun::Success => r is Ok,
            PasteRun::Failed(stderr) => r matches Err(e) && e@
                == "Both xdotool and wtype failed. wtype error: "@ + stderr@,
            PasteRun::NotRun => r matches Err(e) && e@
                == "Neither xdotool nor wtype found, cannot simulate paste."@,
        },
{
    match run {
        PasteRun::Success => Ok(()),
        PasteRun::Failed(stderr) => Err(
            text::concat("Both xdotool and wtype failed. wtype error: ", stderr.as_str()),
        ),
        PasteRun::NotRun => Err(
            "Neither xdotool nor wtype found, cannot simulate paste.".to_owned(),
        ),
    }
}

// ── Laws ─────────────────────────────────────────────────────────────────────

/// The pieces put together again are the whole; each has `n` elements but the
/// last, which has at least one and at most `n`.
pub proof fn law_pieces_make_up_the_whole<T>(s: Seq<T>, n: nat)
    requires
        n > 0,
    ensures
        pieces(s, n).flatten() == s,
        forall|k: int|
            0 <= k < pieces(s, n).len() ==> 0 < (#[trigger] pieces(s, n)[k]).len() <= n,
        forall|k: int| 0 <= k < pieces(s, n).len() - 1 ==> (#[trigger] pieces(s, n)[k]).len() == n,
    decreases s.len(),
{
    let all = pieces(s, n);
    if s.len() == 0 {
        assert(all.flatten() =~= s);
    } else if s.len() <= n {
        all.lemma_flatten_one_element();
    } else {
        let rest = s.skip(n as int);
        law_pieces_make_up_the_whole(rest, n);
        let tail = pieces(rest, n);
        assert(all.drop_first() =~= tail);
        assert(all.flatten() =~= s.take(n as int) + tail.flatten());
        assert(s.take(n as int) + rest =~= s);
        assert forall|k: int| 0 <= k < all.len() implies 0 < (#[trigger] all[k]).len() <= n by {
            if k > 0 {
                assert(all[k] == tail[k - 1]);
            }
        }
        assert forall|k: int| 0 <= k < all.len() - 1 implies (#[trigger] all[k]).len() == n by {
            if k > 0 {
                assert(all[k] == tail[k - 1]);
            }
        }
    }
}

/// No line feed is typed.
pub proof fn law_no_line_feed_is_typed(s: Seq<char>)
    ensures
        !typed_units(s).contains(0x0a),
{
    let normalized = text::with_char_replaced(s, '\n', '\r');
    lemma_utf16_without(normalized);
}

/// A text without line feeds is encoded without them.
proof fn lemma_utf16_without(s: Seq<char>)
    requires
        forall|i: int| 0 <= i < s.len() ==> #[trigger] s[i] != '\n',
    ensures
        !utf16(s).contains(0x0a),
    decreases s.len(),
{
    if s.len() > 0 {
        let init = s.drop_last();
        assert forall|i: int| 0 <= i < init.len() implies #[trigger] init[i] != '\n' by {
            assert(init[i] == s[i]);
        }
        lemma_utf16_without(init);
        assert(s[s.len() - 1] != '\n');
        lemma_scalar_value(s.last());
        let all = utf16(s);
        if all.contains(0x0a) {
            let k = choose|k: int| 0 <= k < all.len() && all[k] == 0x0a;
            if k < utf16(init).len() {
                assert(utf16(init)[k] == 0x0a);
            } else {
                assert(utf16_units(s.last())[k - utf16(init).len()] == 0x0a);
            }
        }
    }
}

/// The text that code units stand for, read from the front: a unit from 0xd800
/// to 0xdbff and the one after it make up one character.
pub open spec fn utf16_text(units: Seq<u16>) -> Seq<char>
    decreases units.len(),
{
    if units.len() == 0 {
        seq![]
    } else if 0xd800 <= units[0] < 0xdc00 && units.len() > 1 {
        seq![
            (0x1_0000 + (units[0] - 0xd800) * 0x400 + (units[1] - 0xdc00)) as char,
        ] + utf16_text(units.skip(2))
    } else {
        seq![units[0] as char] + utf16_text(units.skip(1))
    }
}

/// A character is neither a surrogate nor beyond the last plane.
proof fn lemma_scalar_value(c: char)
    ensures
        0 <= c as int <= 0x10_ffff,
        !(0xd800 <= c as int <= 0xdfff),
{
}

/// One character's code units are read as that character.
proof fn lemma_units_read_back(c: char, rest: Seq<u16>)
    ensures
        utf16_text(utf16_units(c) + rest) == seq![c] + utf16_text(rest),
{
    lemma_scalar_value(c);
    let units = utf16_units(c) + rest;
    let v = c as int;
    if v < 0x1_0000 {
        assert(units[0] == v as u16);
        assert(units.skip(1) =~= rest);
        assert(v as u16 as char == c);
    } else {
        let w = v - 0x1_0000;
        assert(units[0] == (0xd800 + w / 0x400) as u16);
        assert(units[1] == (0xdc00 + w % 0x400) as u16);
        assert(units.skip(2) =~= rest);
        assert((0x1_0000 + (units[0] - 0xd800) * 0x400 + (units[1] - 0xdc00)) == v);
        assert(v as char == c);
    }
}

/// A text's code units, followed by others, are read as the text and what the
/// others stand for.
proof fn lemma_text_reads_back(s: Seq<char>, rest: Seq<u16>)
    ensures
        utf16_text(utf16(s) + rest) == s + utf16_text(rest),
    decreases s.len(),
{
    if s.len() == 0 {
        assert(utf16(s) + rest =~= rest);
        assert(s + utf16_text(rest) =~= utf16_text(rest));
    } else {
        let init = s.drop_last();
        lemma_text_reads_back(init, utf16_units(s.last()) + rest);
        lemma_units_read_back(s.last(), rest);
        assert(utf16(s) + rest =~= utf16(init) + (utf16_units(s.last()) + rest));
        assert(init + (seq![s.last()] + utf16_text(rest)) =~= s + utf16_text(rest));
    }
}

/// What is typed is the text, with carriage returns for its line feeds: put
/// together again, the pieces read as just that.
pub proof fn law_typed_pieces_read_as_the_text(s: Seq<char>, n: nat)
    requires
        n > 0,
    ensures
        utf16_text(pieces(typed_units(s), n).flatten()) == text::with_char_replaced(s, '\n', '\r'),
{
    law_pieces_make_up_the_whole(typed_units(s), n);
    let normalized = text::with_char_replaced(s, '\n', '\r');
    lemma_text_reads_back(normalized, seq![]);
    assert(utf16(normalized) + Seq::<u16>::empty() =~= utf16(normalized));
    assert(normalized + Seq::<char>::empty() =~= normalized);
}

/// What is typed has one character for each character of the text: a carriage
/// return where the text has a line feed, and the text's own at every other
/// position.
pub proof fn law_typed_character_by_character(s: Seq<char>, typed: Seq<char>)
    requires
        typed.len() == s.len(),
        forall|i: int| 0 <= i < s.len() && s[i] == '\n' ==> #[trigger] typed[i] == '\r',
        forall|i: int| 0 <= i < s.len() && s[i] != '\n' ==> #[trigger] typed[i] == s[i],
    ensures
        typed_units(s) == utf16(typed),
{
    assert(text::with_char_replaced(s, '\n', '\r') =~= typed);
}

/// A text without line feeds is typed as it is.
pub proof fn law_text_without_line_feeds_is_typed_as_it_is(s: Seq<char>)
    requires
        forall|i: int| 0 <= i < s.len() ==> #[trigger] s[i] != '\n',
    ensures
        typed_units(s) == utf16(s),
{
    law_typed_character_by_character(s, s);
}

/// A text's code units are those of its characters, one after the other. A
/// character below 0x10000 is its own code unit; any other has two, a high and a
/// low surrogate, that make it up between them.
pub proof fn law_code_units_of_characters(a: Seq<char>, b: Seq<char>, c: char)
    ensures
        utf16(seq![]) == Seq::<u16>::empty(),
        utf16(a + b) == utf16(a) + utf16(b),
        (c as int) < 0x1_0000 ==> utf16(seq![c]).len() == 1 && utf16(seq![c])[0] == c as int,
        (c as int) >= 0x1_0000 ==> {
            let units = utf16(seq![c]);
            &&& units.len() == 2
            &&& 0xd800 <= units[0] < 0xdc00
            &&& 0xdc00 <= units[1] < 0xe000
            &&& 0x1_0000 + (units[0] - 0xd800) * 0x400 + (units[1] - 0xdc00) == c as int
        },
    decreases b.len(),
{
    lemma_scalar_value(c);
    reveal_with_fuel(utf16, 2);
    assert(seq![c].drop_last() =~= seq![]);
    assert(utf16(seq![c]) =~= utf16_units(c));
    if b.len() == 0 {
        assert(a + b =~= a);
        assert(utf16(a) + utf16(b) =~= utf16(a));
    } else {
        law_code_units_of_characters(a, b.drop_last(), c);
        assert((a + b).drop_last() =~= a + b.drop_last());
        assert((a + b).last() == b.last());
        assert(utf16(a + b) =~= utf16(a) + utf16(b));
    }
}

/// A text of characters below 0x10000 has one code unit for each, in order.
proof fn lemma_plain_code_units(s: Seq<char>)
    requires
        forall|i: int| 0 <= i < s.len() ==> (#[trigger] s[i]) as int <= 0xffff,
    ensures
        utf16(s).len() == s.len(),
        forall|i: int| 0 <= i < s.len() ==> #[trigger] utf16(s)[i] == s[i] as int,
    decreases s.len(),
{
    if s.len() > 0 {
        let init = s.drop_last();
        assert forall|i: int| 0 <= i < init.len() implies (#[trigger] init[i]) as int
            <= 0xffff by {
            assert(init[i] == s[i]);
        }
        lemma_plain_code_units(init);
        assert(s[s.len() - 1] as int <= 0xffff);
        lemma_scalar_value(s.last());
        assert forall|i: int| 0 <= i < s.len() implies #[trigger] utf16(s)[i] == s[i] as int by {
            if i < init.len() {
                assert(utf16(s)[i] == utf16(init)[i]);
            }
        }
    }
}

/// The pieces that are typed, put together, hold one code unit for each
/// character of a text of characters below 0x10000: 13 for a line feed, and the
/// character's own otherwise.
pub proof fn law_typed_unit_by_unit(s: Seq<char>, n: nat)
    requires
        n > 0,
        forall|i: int| 0 <= i < s.len() ==> (#[trigger] s[i]) as int <= 0xffff,
    ensures
        ({
            let typed = pieces(typed_units(s), n).flatten();
            &&& typed.len() == s.len()
            &&& forall|i: int|
                0 <= i < s.len() ==> #[trigger] typed[i] == if s[i] as int == 10 {
                    13int
                } else {
                    s[i] as int
                }
        }),
{
    law_pieces_make_up_the_whole(typed_units(s), n);
    let normalized = text::with_char_replaced(s, '\n', '\r');
    assert forall|i: int| 0 <= i < normalized.len() implies (#[trigger] normalized[i]) as int
        <= 0xffff by {
        assert(s[i] as int <= 0xffff);
    }
    lemma_plain_code_units(normalized);
    assert forall|i: int| 0 <= i < s.len() implies #[trigger] typed_units(s)[i] == if s[i] as int
        == 10 {
        13int
    } else {
        s[i] as int
    } by {
        assert(typed_units(s)[i] == normalized[i] as int);
    }
}

/// A keystroke event takes the configured number of code units, or eight where
/// zero is configured.
pub proof fn law_size_of_a_piece(configured: u32)
    ensures
        configured > 0 ==> piece_size(configured) == configured,
        piece_size(0) == 8,
{
}

/// The elements of nested vectors are those of each vector, in order.
pub proof fn law_nested_elements(v: Seq<Vec<u16>>)
    ensures
        nested_view(v).len() == v.len(),
        forall|i: int| 0 <= i < v.len() ==> #[trigger] nested_view(v)[i] == v[i]@,
{
}

}

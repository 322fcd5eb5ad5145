//! Conversion between simplified and traditional Chinese. The conversion itself
//! is the platform's.
use crate::text;
use vstd::prelude::*;

verus! {

/// Which way a conversion mode converts: `false` from simplified to traditional,
/// `true` in reverse, and `None` not at all.
pub open spec fn conversion_of(mode: Seq<char>) -> Option<bool> {
    if mode == "s2t"@ {
        Some(false)
    } else if mode == "t2s"@ {
        Some(true)
    } else {
        None
    }
}

/// The platform's answer, or the text itself where the platform cannot convert
/// it.
pub open spec fn converted_or(answer: Option<String>, unconverted: Seq<char>) -> Seq<char> {
    match answer {
        Some(t) => t@,
        None => unconverted,
    }
}

/// Apply Chinese character conversion based on config value.
/// - "s2t": Simplified -> Traditional
/// - "t2s": Traditional -> Simplified
/// - "" or "none": no conversion
///
/// `transform` is the platform's transform: it takes the text and whether the
/// transform from simplified to traditional is to be reversed, and gives `None`
/// where it is not to be had or fails. The text is then kept as it is.
pub fn convert_chinese<F: Fn(&str, bool) -> Option<String>>(
    text: &str,
    mode: &str,
    transform: F,
) -> (r: String)
    requires
        forall|reverse: bool| #[trigger] transform.requires((text, reverse)),
    ensures
        match conversion_of(mode@) {
            Some(reverse) => exists|answer: Option<String>|
                #[trigger] transform.ensures((text, reverse), answer) && r@ == converted_or(
                    answer,
                    text@,
                ),
            None => r@ == text@,
        },
{
    if text::same_text(mode, "s2t") {
        assert(transform.requires((text, false)));
        let answer = transform(text, false);
        let ghost given = answer;
        let r = match answer {
            Some(t) => t,
            None => text.to_owned(),
        };
        assert(transform.ensures((text, false), given) && r@ == converted_or(given, text@));
        r
    } else if text::same_text(mode, "t2s") {
        assert(transform.requires((text, true)));
        let answer = transform(text, true);
        let ghost given = answer;
        let r = match answer {
            Some(t) => t,
            None => text.to_owned(),
        };
        proof {
            reveal_strlit("s2t");
            reveal_strlit("t2s");
            assert("s2t"@[0] != "t2s"@[0]);
        }
        assert(transform.ensures((text, true), given) && r@ == converted_or(given, text@));
        r
    } else {
        text.to_owned()
    }
}

// ── Laws ─────────────────────────────────────────────────────────────────────

/// Just two modes convert: one from simplified to traditional, and the other in
/// reverse.
pub proof fn law_modes_that_convert(mode: Seq<char>)
    ensures
        conversion_of(mode) == Some(false) <==> mode == "s2t"@,
        conversion_of(mode) == Some(true) <==> mode == "t2s"@,
        conversion_of(mode) is None <==> mode != "s2t"@ && mode != "t2s"@,
{
    reveal_strlit("s2t");
    reveal_strlit("t2s");
    assert("s2t"@[0] != "t2s"@[0]);
}

/// The platform's answer stands as it is; without one, the text does.
pub proof fn law_answer_stands(answer: String, unconverted: Seq<char>)
    ensures
        converted_or(Some(answer), unconverted) == answer@,
        converted_or(None, unconverted) == unconverted,
{
}

}

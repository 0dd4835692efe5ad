//! The texts shown and searched: captions, names and what they are made of.

use vstd::prelude::*;
use vstd::string::{StrSliceExecFns, StringExecFns};

verus! {

/// The characters of a text that may be missing.
pub open spec fn chars_of(text: Option<String>) -> Option<Seq<char>> {
    match text {
        Some(t) => Some(t@),
        None => None,
    }
}

/// The characters of a text, or none where it is missing.
pub open spec fn or_empty(text: Option<Seq<char>>) -> Seq<char> {
    match text {
        Some(t) => t,
        None => Seq::empty(),
    }
}

/// Whether a character has the Unicode property `White_Space`, which the
/// Unicode Character Database gives to these characters.
pub open spec fn white_space(c: char) -> bool {
    ||| '\u{9}' <= c <= '\u{d}'
    ||| c == '\u{20}'
    ||| c == '\u{85}'
    ||| c == '\u{a0}'
    ||| c == '\u{1680}'
    ||| '\u{2000}' <= c <= '\u{200a}'
    ||| c == '\u{2028}'
    ||| c == '\u{2029}'
    ||| c == '\u{202f}'
    ||| c == '\u{205f}'
    ||| c == '\u{3000}'
}

/// `char::is_whitespace`: whether the character has the Unicode property
/// `White_Space`.
pub assume_specification[ char::is_whitespace ](c: char) -> (b: bool)
    ensures
        b == white_space(c),
;

/// The lowercase of a text by the Unicode property `Lowercase`.
pub uninterp spec fn lowercase(text: Seq<char>) -> Seq<char>;

/// `str::to_lowercase`: the lowercase equivalent of a text, which is a matter
/// of its characters alone.
pub assume_specification[ str::to_lowercase ](text: &str) -> (lower: String)
    ensures
        lower@ == lowercase(text@),
;

/// A character with the ASCII capitals mapped to small letters.
pub open spec fn ascii_lower(c: char) -> char {
    if 'A' <= c <= 'Z' {
        (c as u32 + 32) as char
    } else {
        c
    }
}

/// Two texts differ at most in the case of ASCII letters.
pub open spec fn same_but_for_ascii_case(a: Seq<char>, b: Seq<char>) -> bool {
    &&& a.len() == b.len()
    &&& forall|i: int| 0 <= i < a.len() ==> ascii_lower(#[trigger] a[i]) == ascii_lower(b[i])
}

/// `str::eq_ignore_ascii_case`: whether two texts are equal once the ASCII
/// capitals of both are mapped to small letters.
pub assume_specification[ str::eq_ignore_ascii_case ](text: &str, other: &str) -> (b: bool)
    ensures
        b == same_but_for_ascii_case(text@, other@),
;

/// A text without the white space at its end.
pub open spec fn trimmed_end(s: Seq<char>) -> Seq<char>
    decreases s.len(),
{
    if s.len() > 0 && white_space(s.last()) {
        trimmed_end(s.drop_last())
    } else {
        s
    }
}

/// A text without the white space at its start.
pub open spec fn trimmed_start(s: Seq<char>) -> Seq<char>
    decreases s.len(),
{
    if s.len() > 0 && white_space(s.first()) {
        trimmed_start(s.drop_first())
    } else {
        s
    }
}

/// A text without the white space around it.
pub open spec fn trimmed(s: Seq<char>) -> Seq<char> {
    trimmed_start(trimmed_end(s))
}

/// Takes the white space off both ends of a text.
pub fn trim(text: &str) -> (t: &str)
    ensures
        t@ == trimmed(text@),
{
    let mut end: usize = text.unicode_len();
    assert(text@.subrange(0, end as int) =~= text@);
    while end > 0 && text.get_char(end - 1).is_whitespace()
        invariant
            end <= text@.len(),
            trimmed_end(text@) == trimmed_end(text@.subrange(0, end as int)),
        ensures
            end <= text@.len(),
            trimmed_end(text@) == text@.subrange(0, end as int),
        decreases end,
    {
        assert(text@.subrange(0, end as int).drop_last() =~= text@.subrange(0, end - 1));
        end = end - 1;
    }
    let mut start: usize = 0;
    while start < end && text.get_char(start).is_whitespace()
        invariant
            start <= end <= text@.len(),
            trimmed(text@) == trimmed_start(text@.subrange(start as int, end as int)),
        ensures
            start <= end <= text@.len(),
            trimmed(text@) == text@.subrange(start as int, end as int),
        decreases end - start,
    {
        assert(text@.subrange(start as int, end as int).drop_first() =~= text@.subrange(
            start + 1,
            end as int,
        ));
        start = start + 1;
    }
    text.substring_char(start, end)
}

/// What remains of the model of a monitor says something: it is neither empty
/// nor the word "unknown".
pub open spec fn telling(model: Seq<char>) -> bool {
    model.len() > 0 && !same_but_for_ascii_case(model, "unknown"@)
}

/// Whether the model of a monitor says something.
pub fn is_telling(model: &str) -> (b: bool)
    ensures
        b == telling(model@),
{
    !model.is_empty() && !model.eq_ignore_ascii_case("unknown")
}

/// The caption of a window: its title, or the application where the title is
/// missing or empty, or a stand-in where both are missing.
pub open spec fn window_caption(title: Option<Seq<char>>, app_id: Option<Seq<char>>) -> Seq<char> {
    if title is Some && title->0.len() > 0 {
        title->0
    } else if app_id is Some {
        app_id->0
    } else {
        "(untitled)"@
    }
}

/// The text that a window is searched by, before it is put in lowercase.
pub open spec fn window_search_text(
    title: Option<Seq<char>>,
    app_id: Option<Seq<char>>,
) -> Seq<char> {
    or_empty(title) + " "@ + or_empty(app_id)
}

/// The caption of a monitor: its name and, where it is known, its model.
pub open spec fn monitor_caption(name: Seq<char>, model: Option<Seq<char>>) -> Seq<char> {
    match model {
        Some(m) => name + " — "@ + m,
        None => name,
    }
}

/// Captions a window.
pub fn caption_window(title: &Option<String>, app_id: &Option<String>) -> (caption: String)
    ensures
        caption@ == window_caption(chars_of(*title), chars_of(*app_id)),
{
    if let Some(t) = title {
        if !t.as_str().is_empty() {
            return t.clone();
        }
    }
    match app_id {
        Some(a) => a.clone(),
        None => "(untitled)".to_owned(),
    }
}

/// A copy of a text, or an empty one where it is missing.
pub fn text_or_empty(text: &Option<String>) -> (t: String)
    ensures
        t@ == or_empty(chars_of(*text)),
{
    match text {
        Some(t) => t.clone(),
        None => String::new(),
    }
}

/// Joins what a window is searched by.
pub fn search_text_of_window(title: &Option<String>, app_id: &Option<String>) -> (text: String)
    ensures
        text@ == window_search_text(chars_of(*title), chars_of(*app_id)),
{
    let app: String = text_or_empty(app_id);
    text_or_empty(title).concat(" ").concat(app.as_str())
}

/// Captions a monitor.
pub fn caption_monitor(name: &String, model: &Option<String>) -> (caption: String)
    ensures
        caption@ == monitor_caption(name@, chars_of(*model)),
{
    match model {
        Some(m) => name.clone().concat(" — ").concat(m.as_str()),
        None => name.clone(),
    }
}

proof fn lemma_trimmed_end(s: Seq<char>)
    ensures
        trimmed_end(s).len() > 0 ==> !white_space(trimmed_end(s).last()),
        trimmed_end(s).len() <= s.len(),
    decreases s.len(),
{
    if s.len() > 0 && white_space(s.last()) {
        lemma_trimmed_end(s.drop_last());
    }
}

proof fn lemma_trimmed_start(s: Seq<char>)
    ensures
        trimmed_start(s).len() > 0 ==> !white_space(trimmed_start(s).first())
            && trimmed_start(s).last() == s.last(),
        trimmed_start(s).len() <= s.len(),
    decreases s.len(),
{
    if s.len() > 0 && white_space(s.first()) {
        lemma_trimmed_start(s.drop_first());
    }
}

/// A trimmed text has no white space at its ends, so that trimming it again
/// changes nothing.
pub proof fn trimming_leaves_bare_ends(s: Seq<char>)
    ensures
        trimmed(s).len() > 0 ==> !white_space(trimmed(s).first()) && !white_space(
            trimmed(s).last(),
        ),
        trimmed(trimmed(s)) == trimmed(s),
{
    lemma_trimmed_end(s);
    lemma_trimmed_start(trimmed_end(s));
}

/// A window is captioned with an empty text only where its application gives
/// an empty name.
pub proof fn window_captions_are_rarely_empty(
    title: Option<Seq<char>>,
    app_id: Option<Seq<char>>,
)
    requires
        app_id != Some(Seq::<char>::empty()),
    ensures
        window_caption(title, app_id).len() > 0,
{
    reveal_strlit("(untitled)");
    if app_id is Some && app_id->0.len() == 0 {
        assert(app_id->0 =~= Seq::<char>::empty());
    }
}

proof fn lemma_cut_end(s: Seq<char>)
    ensures
        ({
            let t = trimmed_end(s);
            &&& t.len() <= s.len()
            &&& t == s.take(t.len() as int)
            &&& forall|i: int| t.len() <= i < s.len() ==> white_space(#[trigger] s[i])
        }),
    decreases s.len(),
{
    if s.len() > 0 && white_space(s.last()) {
        let rest = s.drop_last();
        lemma_cut_end(rest);
        let t = trimmed_end(rest);
        assert(rest.take(t.len() as int) =~= s.take(t.len() as int));
        assert forall|i: int| t.len() <= i < s.len() implies white_space(#[trigger] s[i]) by {
            if i < rest.len() {
                assert(rest[i] == s[i]);
            }
        }
    } else {
        assert(s.take(s.len() as int) =~= s);
    }
}

proof fn lemma_cut_start(s: Seq<char>)
    ensures
        ({
            let t = trimmed_start(s);
            let n = s.len() - t.len();
            &&& 0 <= n
            &&& t == s.skip(n)
            &&& forall|i: int| 0 <= i < n ==> white_space(#[trigger] s[i])
        }),
    decreases s.len(),
{
    if s.len() > 0 && white_space(s.first()) {
        let rest = s.drop_first();
        lemma_cut_start(rest);
        let t = trimmed_start(rest);
        let n = s.len() - t.len();
        assert(rest.skip(n - 1) =~= s.skip(n));
        assert forall|i: int| 0 <= i < n implies white_space(#[trigger] s[i]) by {
            if i > 0 {
                assert(rest[i - 1] == s[i]);
            }
        }
    } else {
        assert(s.skip(0) =~= s);
    }
}

/// Trimming takes white space off the two ends and nothing else: the text is
/// what was taken off in front, the trimmed text, and what was taken off
/// behind, and no more could have been taken off.
pub proof fn trimming_takes_off_white_space_alone(s: Seq<char>) -> (cut: (Seq<char>, Seq<char>))
    ensures
        s == cut.0 + trimmed(s) + cut.1,
        forall|i: int| 0 <= i < cut.0.len() ==> white_space(#[trigger] cut.0[i]),
        forall|i: int| 0 <= i < cut.1.len() ==> white_space(#[trigger] cut.1[i]),
        trimmed(s).len() > 0 ==> !white_space(trimmed(s).first()) && !white_space(
            trimmed(s).last(),
        ),
{
    let e = trimmed_end(s);
    lemma_cut_end(s);
    lemma_cut_start(e);
    trimming_leaves_bare_ends(s);
    let n = e.len() - trimmed(s).len();
    let cut = (e.take(n), s.skip(e.len() as int));
    assert(s =~= cut.0 + trimmed(s) + cut.1);
    cut
}

/// A model says nothing where it is empty or the word "unknown", in whatever
/// case its letters are, and something otherwise.
pub proof fn unknown_models_say_nothing(model: Seq<char>)
    ensures
        !telling(model) <==> {
            ||| model.len() == 0
            ||| {
                &&& model.len() == 7
                &&& model[0] == 'u' || model[0] == 'U'
                &&& model[1] == 'n' || model[1] == 'N'
                &&& model[2] == 'k' || model[2] == 'K'
                &&& model[3] == 'n' || model[3] == 'N'
                &&& model[4] == 'o' || model[4] == 'O'
                &&& model[5] == 'w' || model[5] == 'W'
                &&& model[6] == 'n' || model[6] == 'N'
            }
        },
{
    reveal_strlit("unknown");
    let word = "unknown"@;
    if model.len() == 7 {
        assert(same_but_for_ascii_case(model, word) <==> (forall|i: int|
            0 <= i < 7 ==> ascii_lower(#[trigger] model[i]) == word[i]));
        if same_but_for_ascii_case(model, word) {
            assert(ascii_lower(model[0]) == 'u');
            assert(ascii_lower(model[1]) == 'n');
            assert(ascii_lower(model[2]) == 'k');
            assert(ascii_lower(model[3]) == 'n');
            assert(ascii_lower(model[4]) == 'o');
            assert(ascii_lower(model[5]) == 'w');
            assert(ascii_lower(model[6]) == 'n');
        }
    }
}

/// A window is captioned with its title wherever that has a character. A
/// title without one is as good as none: the application stands in for it,
/// and a fixed text where there is no application either.
pub proof fn window_captions_prefer_the_title(
    title: Option<Seq<char>>,
    app_id: Option<Seq<char>>,
    other: Option<Seq<char>>,
)
    ensures
        title matches Some(t) ==> t.len() > 0 ==> window_caption(title, app_id) == t
            && window_caption(title, other) == t,
        window_caption(Some(Seq::<char>::empty()), app_id) == window_caption(None, app_id),
        app_id matches Some(a) ==> window_caption(None, app_id) == a,
        window_caption(None, None) == seq!['(', 'u', 'n', 't', 'i', 't', 'l', 'e', 'd', ')'],
{
    reveal_strlit("(untitled)");
    assert("(untitled)"@ =~= seq!['(', 'u', 'n', 't', 'i', 't', 'l', 'e', 'd', ')']);
}

/// A window is searched by its title, a space and its application, where
/// either may be missing.
pub proof fn window_search_texts_hold_title_and_application(
    title: Option<Seq<char>>,
    app_id: Option<Seq<char>>,
)
    ensures
        ({
            let text = window_search_text(title, app_id);
            let before: int = match title {
                Some(t) => t.len() as int,
                None => 0,
            };
            let behind: int = match app_id {
                Some(a) => a.len() as int,
                None => 0,
            };
            &&& text.len() == before + 1 + behind
            &&& text[before] == ' '
            &&& title matches Some(t) ==> text.take(before) == t
            &&& app_id matches Some(a) ==> text.skip(before + 1) == a
        }),
{
    reveal_strlit(" ");
    let text = window_search_text(title, app_id);
    if let Some(t) = title {
        assert(text.take(t.len() as int) =~= t);
    }
    if let Some(a) = app_id {
        assert(text.skip(text.len() - a.len()) =~= a);
    }
}

/// A monitor is captioned with its name, and where its model is known with
/// the name, a dash between spaces and the model.
pub proof fn monitor_captions_hold_name_and_model(name: Seq<char>, model: Seq<char>)
    ensures
        monitor_caption(name, None) == name,
        ({
            let caption = monitor_caption(name, Some(model));
            let n = name.len() as int;
            &&& caption.len() == n + 3 + model.len()
            &&& caption.take(n) == name
            &&& caption[n] == ' ' && caption[n + 1] == '\u{2014}' && caption[n + 2] == ' '
            &&& caption.skip(n + 3) == model
        }),
{
    reveal_strlit(" — ");
    let caption = monitor_caption(name, Some(model));
    assert(caption.take(name.len() as int) =~= name);
    assert(caption.skip(name.len() as int + 3) =~= model);
}

} // verus!

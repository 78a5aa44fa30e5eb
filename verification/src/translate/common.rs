//! Shared translation machinery: the request/response shapes, the quality
//! labels the judge assigns, interpretation of the model's untrusted
//! responses, and translation cache keys.

use vstd::prelude::*;
use crate::text::{
    chars_vec, contains_str_ignore_case, eq_ignore_ascii_case, has_sub, has_sub_ignore_case,
    is_prefix, is_suffix, spec_ascii_lower, spec_split_lines, spec_trim, split_lines, str_eq,
    str_eq_ignore_case, string_from_chars, trim_chars, trim_str,
};
use crate::cache::{cache_key_of_parts, spec_cache_key};

verus! {

/// The body of a generation request to the model endpoint.
#[derive(Debug, Clone)]
pub struct TranslationRequest {
    pub model: String,
    pub prompt: String,
    pub stream: bool,
    pub format: String,
}

/// The envelope the model endpoint answers with.
#[derive(Debug, Clone)]
pub struct TranslationResponse {
    pub response: String,
    pub done: bool,
}

/// The JSON payload a translation response is expected to carry.
#[derive(Debug, Clone)]
pub struct TranslationResult {
    pub text: String,
}

/// The JSON payload a judgement response is expected to carry.
#[derive(Debug, Clone)]
pub struct QualityEvaluation {
    pub evaluation: String,
}

/// One persisted translation with its provenance; only quality-accepted
/// translations are ever written.
#[derive(Debug, Clone)]
pub struct TranslationCacheEntry {
    pub source_text: String,
    pub target_language: String,
    pub context: String,
    pub translation: String,
    pub quality: String,
    pub model: String,
    pub cached_at: u64,
}

/// The four ordered quality levels the judge assigns.
#[derive(Debug, Clone, PartialEq, Eq, Structural)]
pub enum TranslationQuality {
    Perfect,
    Good,
    Bad,
    Invalid,
}

/// The quality level a label names, compared without regard to ASCII
/// case; anything unrecognized defaults to `Good` so a flaky judge cannot
/// force endless retries.
pub open spec fn spec_quality_from(s: Seq<char>) -> TranslationQuality {
    if eq_ignore_ascii_case(s, "PERFECT"@) {
        TranslationQuality::Perfect
    } else if eq_ignore_ascii_case(s, "GOOD"@) {
        TranslationQuality::Good
    } else if eq_ignore_ascii_case(s, "BAD"@) {
        TranslationQuality::Bad
    } else if eq_ignore_ascii_case(s, "INVALID"@) {
        TranslationQuality::Invalid
    } else {
        TranslationQuality::Good
    }
}

impl TranslationQuality {
    /// Parses a judge label, ignoring ASCII case; unrecognized labels
    /// default to `Good`.
    pub fn from_str(s: &str) -> (r: Self)
        ensures
            r == spec_quality_from(s@),
    {
        if str_eq_ignore_case(s, "PERFECT") {
            TranslationQuality::Perfect
        } else if str_eq_ignore_case(s, "GOOD") {
            TranslationQuality::Good
        } else if str_eq_ignore_case(s, "BAD") {
            TranslationQuality::Bad
        } else if str_eq_ignore_case(s, "INVALID") {
            TranslationQuality::Invalid
        } else {
            TranslationQuality::Good
        }
    }

    /// The canonical label of this level.
    pub fn to_str(&self) -> (r: &'static str)
        ensures
            self is Perfect ==> r@ == "PERFECT"@,
            self is Good ==> r@ == "GOOD"@,
            self is Bad ==> r@ == "BAD"@,
            self is Invalid ==> r@ == "INVALID"@,
    {
        match self {
            TranslationQuality::Perfect => "PERFECT",
            TranslationQuality::Good => "GOOD",
            TranslationQuality::Bad => "BAD",
            TranslationQuality::Invalid => "INVALID",
        }
    }

    /// Whether this level lets the retry loop accept the attempt.
    pub fn is_acceptable(&self) -> (r: bool)
        ensures
            r == (self is Perfect || self is Good),
    {
        match self {
            TranslationQuality::Perfect | TranslationQuality::Good => true,
            _ => false,
        }
    }
}

/// What parsing a JSON object and reading one string field of it returns:
/// the field's string value, or nothing when the text is not a JSON object
/// or the field is missing or not a string. A function of the text and the
/// field name alone.
pub uninterp spec fn json_string_field_of(s: Seq<char>, field: Seq<char>) -> Option<Seq<char>>;

/// Relies on `serde_json::from_str::<Value>`, `Value::get` and
/// `Value::as_str`: reads one string field out of a JSON object.
#[verifier::external_body]
pub fn parse_string_field(s: &str, field: &str) -> (r: Option<String>)
    ensures
        match r {
            Some(v) => json_string_field_of(s@, field@) == Some(v@),
            None => json_string_field_of(s@, field@) is None,
        },
{
    let value: serde_json::Value = serde_json::from_str(s).ok()?;
    Some(value.get(field)?.as_str()?.to_string())
}

/// One line is passed over by the response cleaner: it is empty, looks
/// like commentary or markup, or mentions the model's own meta-phrases.
pub open spec fn spec_line_skipped(t: Seq<char>) -> bool {
    ||| t.len() == 0
    ||| is_prefix("Here are"@, t)
    ||| is_prefix("Option"@, t)
    ||| is_prefix("**Option"@, t)
    ||| is_prefix("Translation:"@, t)
    ||| is_prefix("- "@, t)
    ||| is_prefix("* "@, t)
    ||| has_sub(t, "(Captures"@)
    ||| has_sub(t, "maintains"@)
    ||| (is_prefix("**"@, t) && is_suffix("**"@, t))
}

/// The first line the cleaner accepts: not skipped, and longer than three
/// characters once trimmed.
pub open spec fn spec_first_accepted(lines: Seq<Seq<char>>) -> Option<Seq<char>>
    decreases lines.len(),
{
    if lines.len() == 0 {
        None
    } else {
        let t = spec_trim(lines[0]);
        if !spec_line_skipped(t) && t.len() > 3 {
            Some(t)
        } else {
            spec_first_accepted(lines.drop_first())
        }
    }
}

/// The first line with any content at all, trimmed.
pub open spec fn spec_first_nonempty(lines: Seq<Seq<char>>) -> Option<Seq<char>>
    decreases lines.len(),
{
    if lines.len() == 0 {
        None
    } else {
        let t = spec_trim(lines[0]);
        if t.len() > 0 {
            Some(t)
        } else {
            spec_first_nonempty(lines.drop_first())
        }
    }
}

/// What the response cleaner extracts from free-form model output: the
/// first substantial line, else the first non-empty line, else the whole
/// response.
pub open spec fn spec_clean_response(s: Seq<char>) -> Seq<char> {
    let lines = spec_split_lines(s);
    match spec_first_accepted(lines) {
        Some(t) => t,
        None => match spec_first_nonempty(lines) {
            Some(t) => t,
            None => s,
        },
    }
}

fn line_skipped(t: &Vec<char>) -> (r: bool)
    ensures
        r == spec_line_skipped(t@),
{
    if t.len() == 0 {
        return true;
    }
    let here_are = chars_vec("Here are");
    let option_pre = chars_vec("Option");
    let bold_option = chars_vec("**Option");
    let translation_pre = chars_vec("Translation:");
    let dash = chars_vec("- ");
    let star = chars_vec("* ");
    let captures = chars_vec("(Captures");
    let maintains = chars_vec("maintains");
    let bold = chars_vec("**");
    if crate::text::starts_with_chars(t, &here_are)
        || crate::text::starts_with_chars(t, &option_pre)
        || crate::text::starts_with_chars(t, &bold_option)
        || crate::text::starts_with_chars(t, &translation_pre)
        || crate::text::starts_with_chars(t, &dash)
        || crate::text::starts_with_chars(t, &star) {
        return true;
    }
    if crate::text::contains_chars(t, &captures) || crate::text::contains_chars(t, &maintains) {
        return true;
    }
    crate::text::starts_with_chars(t, &bold) && crate::text::ends_with_chars(t, &bold)
}

/// Extracts the likeliest translation line from free-form model output:
/// commentary, list markup and meta-phrases are passed over, then the
/// first remaining substantial line wins; failing that, the first
/// non-empty line; failing that, the whole response.
pub fn clean_translation_response(response: &str) -> (r: String)
    ensures
        r@ == spec_clean_response(response@),
{
    let rv = chars_vec(response);
    let lines = split_lines(&rv);
    let ghost lviews = lines@.map_values(|l: Vec<char>| l@);
    let n = lines.len();
    let mut i: usize = 0;
    proof {
        assert(lviews.skip(0) =~= lviews);
    }
    while i < n
        invariant
            0 <= i <= n == lines@.len(),
            rv@ == response@,
            lviews == lines@.map_values(|l: Vec<char>| l@),
            lviews == spec_split_lines(response@),
            spec_first_accepted(lviews) == spec_first_accepted(lviews.skip(i as int)),
        decreases n - i,
    {
        proof {
            assert(lviews.skip(i as int)[0] == lviews[i as int]);
            assert(lviews.skip(i as int).drop_first() =~= lviews.skip(i + 1 as int));
        }
        let t = trim_chars(&lines[i]);
        let skipped = line_skipped(&t);
        if !skipped && t.len() > 3 {
            return string_from_chars(&t);
        }
        i = i + 1;
    }
    proof {
        assert(lviews.skip(n as int) =~= Seq::<Seq<char>>::empty());
    }
    let mut j: usize = 0;
    proof {
        assert(lviews.skip(0) =~= lviews);
    }
    while j < n
        invariant
            0 <= j <= n == lines@.len(),
            rv@ == response@,
            lviews == lines@.map_values(|l: Vec<char>| l@),
            lviews == spec_split_lines(response@),
            spec_first_accepted(lviews) is None,
            spec_first_nonempty(lviews) == spec_first_nonempty(lviews.skip(j as int)),
        decreases n - j,
    {
        proof {
            assert(lviews.skip(j as int)[0] == lviews[j as int]);
            assert(lviews.skip(j as int).drop_first() =~= lviews.skip(j + 1 as int));
        }
        let t = trim_chars(&lines[j]);
        if t.len() > 0 {
            return string_from_chars(&t);
        }
        j = j + 1;
    }
    proof {
        assert(lviews.skip(n as int) =~= Seq::<Seq<char>>::empty());
    }
    string_from_chars(&rv)
}

/// What interpreting a raw translation response yields: an error on an
/// empty response, the JSON payload's trimmed `text` field when it parses,
/// and the cleaned free-form text otherwise.
pub open spec fn spec_interpret_translation(raw: Seq<char>) -> Option<Seq<char>> {
    let t = spec_trim(raw);
    if t.len() == 0 {
        None
    } else {
        match json_string_field_of(t, "text"@) {
            Some(text) => Some(spec_trim(text)),
            None => Some(spec_clean_response(t)),
        }
    }
}

/// Interprets the model's raw translation response. An empty response is
/// an error; a JSON `{"text": ...}` payload yields its trimmed text; any
/// other shape degrades to the cleaned free-form text.
pub fn interpret_translation_response(raw: &str) -> (r: Option<String>)
    ensures
        match r {
            Some(s) => spec_interpret_translation(raw@) == Some(s@),
            None => spec_interpret_translation(raw@) is None,
        },
{
    let trimmed = trim_str(raw);
    let tv = chars_vec(trimmed.as_str());
    if tv.len() == 0 {
        return None;
    }
    match parse_string_field(trimmed.as_str(), "text") {
        Some(text) => Some(trim_str(text.as_str())),
        None => Some(clean_translation_response(trimmed.as_str())),
    }
}

/// What interpreting a raw judgement response yields: the JSON payload's
/// `evaluation` label when it parses, else the first level keyword found
/// in the text (PERFECT before GOOD before BAD), else `Good` — the lenient
/// default for unparseable judge output, so a flaky judge cannot force
/// endless retries.
pub open spec fn spec_interpret_evaluation(raw: Seq<char>) -> TranslationQuality {
    let t = spec_trim(raw);
    match json_string_field_of(t, "evaluation"@) {
        Some(label) => spec_quality_from(label),
        None => {
            if has_sub_ignore_case(t, "PERFECT"@) {
                TranslationQuality::Perfect
            } else if has_sub_ignore_case(t, "GOOD"@) {
                TranslationQuality::Good
            } else if has_sub_ignore_case(t, "BAD"@) {
                TranslationQuality::Bad
            } else {
                TranslationQuality::Good
            }
        },
    }
}

/// Interprets the model's raw judgement response: a JSON
/// `{"evaluation": ...}` payload names the level; otherwise the first
/// level keyword found anywhere in the text decides, and a response with
/// none defaults leniently to `Good`.
pub fn interpret_evaluation_response(raw: &str) -> (r: TranslationQuality)
    ensures
        r == spec_interpret_evaluation(raw@),
{
    let trimmed = trim_str(raw);
    match parse_string_field(trimmed.as_str(), "evaluation") {
        Some(label) => TranslationQuality::from_str(label.as_str()),
        None => {
            if contains_str_ignore_case(trimmed.as_str(), "PERFECT") {
                TranslationQuality::Perfect
            } else if contains_str_ignore_case(trimmed.as_str(), "GOOD") {
                TranslationQuality::Good
            } else if contains_str_ignore_case(trimmed.as_str(), "BAD") {
                TranslationQuality::Bad
            } else {
                TranslationQuality::Good
            }
        },
    }
}

/// The identifying parts of a translation cache key, in order: the source
/// text, the target language, the context, and the model.
pub open spec fn spec_translation_key_parts(
    source_text: Seq<char>,
    target_language: Seq<char>,
    context: Seq<char>,
    model: Seq<char>,
) -> Seq<Seq<char>> {
    seq![source_text, target_language, context, model]
}

/// Derives the cache key of one translation unit from its source text,
/// target language, context, and model. Equal inputs always derive equal
/// keys.
pub fn generate_cache_key(
    source_text: &str,
    target_language: &str,
    context: &str,
    model: &str,
) -> (r: String)
    ensures
        r@ == spec_cache_key(
            spec_translation_key_parts(source_text@, target_language@, context@, model@),
        ),
{
    let mut parts: Vec<String> = Vec::new();
    parts.push(copy_str(source_text));
    parts.push(copy_str(target_language));
    parts.push(copy_str(context));
    parts.push(copy_str(model));
    proof {
        assert(parts@.map_values(|s: String| s@) =~= spec_translation_key_parts(
            source_text@,
            target_language@,
            context@,
            model@,
        ));
    }
    cache_key_of_parts(&parts)
}

fn copy_str(s: &str) -> (r: String)
    ensures
        r@ == s@,
{
    let v = chars_vec(s);
    string_from_chars(&v)
}


/// The full language name a code maps to when building prompts, matched on
/// the ASCII-lowercased code; an unknown code comes back lowercased as it
/// is.
pub open spec fn spec_language_name(lowered: Seq<char>) -> Seq<char> {
    if lowered == "ja"@ {
        "Japanese"@
    } else if lowered == "ko"@ {
        "Korean"@
    } else if lowered == "zh"@ {
        "Chinese"@
    } else if lowered == "fr"@ {
        "French"@
    } else if lowered == "de"@ {
        "German"@
    } else if lowered == "es"@ {
        "Spanish"@
    } else if lowered == "ru"@ {
        "Russian"@
    } else if lowered == "it"@ {
        "Italian"@
    } else if lowered == "pt"@ {
        "Portuguese"@
    } else if lowered == "pl"@ {
        "Polish"@
    } else if lowered == "nl"@ {
        "Dutch"@
    } else if lowered == "tr"@ {
        "Turkish"@
    } else if lowered == "ar"@ {
        "Arabic"@
    } else if lowered == "hi"@ {
        "Hindi"@
    } else if lowered == "th"@ {
        "Thai"@
    } else if lowered == "vi"@ {
        "Vietnamese"@
    } else if lowered == "sv"@ {
        "Swedish"@
    } else if lowered == "da"@ {
        "Danish"@
    } else if lowered == "no"@ {
        "Norwegian"@
    } else if lowered == "fi"@ {
        "Finnish"@
    } else if lowered == "he"@ {
        "Hebrew"@
    } else if lowered == "hu"@ {
        "Hungarian"@
    } else if lowered == "cs"@ {
        "Czech"@
    } else if lowered == "sk"@ {
        "Slovak"@
    } else if lowered == "bg"@ {
        "Bulgarian"@
    } else if lowered == "hr"@ {
        "Croatian"@
    } else if lowered == "sl"@ {
        "Slovenian"@
    } else if lowered == "et"@ {
        "Estonian"@
    } else if lowered == "lv"@ {
        "Latvian"@
    } else if lowered == "lt"@ {
        "Lithuanian"@
    } else if lowered == "mt"@ {
        "Maltese"@
    } else if lowered == "ga"@ {
        "Irish"@
    } else if lowered == "cy"@ {
        "Welsh"@
    } else if lowered == "eu"@ {
        "Basque"@
    } else if lowered == "ca"@ {
        "Catalan"@
    } else if lowered == "gl"@ {
        "Galician"@
    } else if lowered == "is"@ {
        "Icelandic"@
    } else if lowered == "mk"@ {
        "Macedonian"@
    } else if lowered == "sq"@ {
        "Albanian"@
    } else if lowered == "be"@ {
        "Belarusian"@
    } else if lowered == "uk"@ {
        "Ukrainian"@
    } else if lowered == "az"@ {
        "Azerbaijani"@
    } else if lowered == "kk"@ {
        "Kazakh"@
    } else if lowered == "ky"@ {
        "Kyrgyz"@
    } else if lowered == "uz"@ {
        "Uzbek"@
    } else if lowered == "tg"@ {
        "Tajik"@
    } else if lowered == "am"@ {
        "Amharic"@
    } else if lowered == "ka"@ {
        "Georgian"@
    } else if lowered == "hy"@ {
        "Armenian"@
    } else if lowered == "ne"@ {
        "Nepali"@
    } else if lowered == "si"@ {
        "Sinhala"@
    } else if lowered == "my"@ {
        "Burmese"@
    } else if lowered == "km"@ {
        "Khmer"@
    } else if lowered == "lo"@ {
        "Lao"@
    } else if lowered == "gu"@ {
        "Gujarati"@
    } else if lowered == "pa"@ {
        "Punjabi"@
    } else if lowered == "ta"@ {
        "Tamil"@
    } else if lowered == "te"@ {
        "Telugu"@
    } else if lowered == "kn"@ {
        "Kannada"@
    } else if lowered == "ml"@ {
        "Malayalam"@
    } else if lowered == "bn"@ {
        "Bengali"@
    } else if lowered == "as"@ {
        "Assamese"@
    } else if lowered == "or"@ {
        "Odia"@
    } else if lowered == "mr"@ {
        "Marathi"@
    } else if lowered == "en"@ {
        "English"@
    } else {
        lowered
    }
}

/// Maps a language code to its full name for clearer prompts; an unknown
/// code is kept (lowercased).
pub fn language_code_to_name(code: &str) -> (r: String)
    ensures
        r@ == spec_language_name(code@.map_values(|c: char| spec_ascii_lower(c))),
{
    let lowered = crate::text::ascii_lower_str(code);
    if str_eq(lowered.as_str(), "ja") {
        String::from_str("Japanese")
    } else if str_eq(lowered.as_str(), "ko") {
        String::from_str("Korean")
    } else if str_eq(lowered.as_str(), "zh") {
        String::from_str("Chinese")
    } else if str_eq(lowered.as_str(), "fr") {
        String::from_str("French")
    } else if str_eq(lowered.as_str(), "de") {
        String::from_str("German")
    } else if str_eq(lowered.as_str(), "es") {
        String::from_str("Spanish")
    } else if str_eq(lowered.as_str(), "ru") {
        String::from_str("Russian")
    } else if str_eq(lowered.as_str(), "it") {
        String::from_str("Italian")
    } else if str_eq(lowered.as_str(), "pt") {
        String::from_str("Portuguese")
    } else if str_eq(lowered.as_str(), "pl") {
        String::from_str("Polish")
    } else if str_eq(lowered.as_str(), "nl") {
        String::from_str("Dutch")
    } else if str_eq(lowered.as_str(), "tr") {
        String::from_str("Turkish")
    } else if str_eq(lowered.as_str(), "ar") {
        String::from_str("Arabic")
    } else if str_eq(lowered.as_str(), "hi") {
        String::from_str("Hindi")
    } else if str_eq(lowered.as_str(), "th") {
        String::from_str("Thai")
    } else if str_eq(lowered.as_str(), "vi") {
        String::from_str("Vietnamese")
    } else if str_eq(lowered.as_str(), "sv") {
        String::from_str("Swedish")
    } else if str_eq(lowered.as_str(), "da") {
        String::from_str("Danish")
    } else if str_eq(lowered.as_str(), "no") {
        String::from_str("Norwegian")
    } else if str_eq(lowered.as_str(), "fi") {
        String::from_str("Finnish")
    } else if str_eq(lowered.as_str(), "he") {
        String::from_str("Hebrew")
    } else if str_eq(lowered.as_str(), "hu") {
        String::from_str("Hungarian")
    } else if str_eq(lowered.as_str(), "cs") {
        String::from_str("Czech")
    } else if str_eq(lowered.as_str(), "sk") {
        String::from_str("Slovak")
    } else if str_eq(lowered.as_str(), "bg") {
        String::from_str("Bulgarian")
    } else if str_eq(lowered.as_str(), "hr") {
        String::from_str("Croatian")
    } else if str_eq(lowered.as_str(), "sl") {
        String::from_str("Slovenian")
    } else if str_eq(lowered.as_str(), "et") {
        String::from_str("Estonian")
    } else if str_eq(lowered.as_str(), "lv") {
        String::from_str("Latvian")
    } else if str_eq(lowered.as_str(), "lt") {
        String::from_str("Lithuanian")
    } else if str_eq(lowered.as_str(), "mt") {
        String::from_str("Maltese")
    } else if str_eq(lowered.as_str(), "ga") {
        String::from_str("Irish")
    } else if str_eq(lowered.as_str(), "cy") {
        String::from_str("Welsh")
    } else if str_eq(lowered.as_str(), "eu") {
        String::from_str("Basque")
    } else if str_eq(lowered.as_str(), "ca") {
        String::from_str("Catalan")
    } else if str_eq(lowered.as_str(), "gl") {
        String::from_str("Galician")
    } else if str_eq(lowered.as_str(), "is") {
        String::from_str("Icelandic")
    } else if str_eq(lowered.as_str(), "mk") {
        String::from_str("Macedonian")
    } else if str_eq(lowered.as_str(), "sq") {
        String::from_str("Albanian")
    } else if str_eq(lowered.as_str(), "be") {
        String::from_str("Belarusian")
    } else if str_eq(lowered.as_str(), "uk") {
        String::from_str("Ukrainian")
    } else if str_eq(lowered.as_str(), "az") {
        String::from_str("Azerbaijani")
    } else if str_eq(lowered.as_str(), "kk") {
        String::from_str("Kazakh")
    } else if str_eq(lowered.as_str(), "ky") {
        String::from_str("Kyrgyz")
    } else if str_eq(lowered.as_str(), "uz") {
        String::from_str("Uzbek")
    } else if str_eq(lowered.as_str(), "tg") {
        String::from_str("Tajik")
    } else if str_eq(lowered.as_str(), "am") {
        String::from_str("Amharic")
    } else if str_eq(lowered.as_str(), "ka") {
        String::from_str("Georgian")
    } else if str_eq(lowered.as_str(), "hy") {
        String::from_str("Armenian")
    } else if str_eq(lowered.as_str(), "ne") {
        String::from_str("Nepali")
    } else if str_eq(lowered.as_str(), "si") {
        String::from_str("Sinhala")
    } else if str_eq(lowered.as_str(), "my") {
        String::from_str("Burmese")
    } else if str_eq(lowered.as_str(), "km") {
        String::from_str("Khmer")
    } else if str_eq(lowered.as_str(), "lo") {
        String::from_str("Lao")
    } else if str_eq(lowered.as_str(), "gu") {
        String::from_str("Gujarati")
    } else if str_eq(lowered.as_str(), "pa") {
        String::from_str("Punjabi")
    } else if str_eq(lowered.as_str(), "ta") {
        String::from_str("Tamil")
    } else if str_eq(lowered.as_str(), "te") {
        String::from_str("Telugu")
    } else if str_eq(lowered.as_str(), "kn") {
        String::from_str("Kannada")
    } else if str_eq(lowered.as_str(), "ml") {
        String::from_str("Malayalam")
    } else if str_eq(lowered.as_str(), "bn") {
        String::from_str("Bengali")
    } else if str_eq(lowered.as_str(), "as") {
        String::from_str("Assamese")
    } else if str_eq(lowered.as_str(), "or") {
        String::from_str("Odia")
    } else if str_eq(lowered.as_str(), "mr") {
        String::from_str("Marathi")
    } else if str_eq(lowered.as_str(), "en") {
        String::from_str("English")
    } else {
        lowered
    }
}

} // verus!

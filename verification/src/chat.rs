//! The catalogue assistant: conversation language, greetings, country and
//! language lists, destination matching, and the decisions around the AI call.
use vstd::prelude::*;

use crate::models::Destination;
use crate::text::{
    char_views, chars_eq, chars_of, contains_str, contains_word, decimal, has_substring,
    lemma_substring_extends, lemma_substring_trans, occurs_at,
    insert_sorted, lemma_sorted_unique, lemma_total_len_take, lemma_words_bounded, owned, push_decimal,
    spec_to_lowercase, split_words, str_eq, strictly_sorted, to_lowercase, total_len,
    utf8_len, utf8_len_of, views, words,
};

verus! {

// ---------------------------------------------------------------------------
// Messages
// ---------------------------------------------------------------------------

/// A chat request: the new message and the earlier turns.
pub struct ChatRequest {
    pub message: String,
    pub history: Vec<ChatMessage>,
}

/// One turn of a conversation.
pub struct ChatMessage {
    pub role: String,
    pub content: String,
}

/// The assistant's answer.
pub struct ChatResponse {
    pub response: String,
}

/// State carried through one chat request: the language of the conversation.
pub struct ChatContext {
    pub language: String,
}

impl Default for ChatContext {
    /// Conversations start in French.
    fn default() -> (r: Self)
        ensures
            r.language@ == "fr"@,
    {
        ChatContext { language: owned("fr") }
    }
}

/// The characters of an optional string.
pub open spec fn opt_view(o: Option<String>) -> Option<Seq<char>> {
    match o {
        Some(s) => Some(s@),
        None => None,
    }
}

// ---------------------------------------------------------------------------
// Language of the conversation
// ---------------------------------------------------------------------------

/// The (lowercased) text asks for English.
pub open spec fn asks_english(m: Seq<char>) -> bool {
    ||| has_substring(m, "english"@)
    ||| has_substring(m, "in english"@)
    ||| has_substring(m, "speak english"@)
    ||| has_substring(m, "can we speak in english"@)
}

/// The (lowercased) text asks for French.
pub open spec fn asks_french(m: Seq<char>) -> bool {
    ||| has_substring(m, "français"@)
    ||| has_substring(m, "francais"@)
    ||| has_substring(m, "in french"@)
    ||| has_substring(m, "parle français"@)
}

/// The language a message switches to, if it asks for one; English wins
/// when both are asked for.
pub open spec fn language_switch(message: Seq<char>) -> Option<Seq<char>> {
    let m = spec_to_lowercase(message);
    if asks_english(m) {
        Some("en"@)
    } else if asks_french(m) {
        Some("fr"@)
    } else {
        None
    }
}

/// Detects a request to switch the conversation language.
pub fn detect_language_switch(message: &str) -> (r: Option<String>)
    ensures
        opt_view(r) == language_switch(message@),
{
    let lower = to_lowercase(message);
    let m = chars_of(lower.as_str());
    if contains_str(&m, "english") || contains_str(&m, "in english") || contains_str(
        &m,
        "speak english",
    ) || contains_str(&m, "can we speak in english") {
        return Some(owned("en"));
    }
    if contains_str(&m, "français") || contains_str(&m, "francais") || contains_str(
        &m,
        "in french",
    ) || contains_str(&m, "parle français") {
        return Some(owned("fr"));
    }
    None
}

/// The (lowercased) text holds one of the English cue words.
pub open spec fn has_english_cue(m: Seq<char>) -> bool {
    ||| has_substring(m, "hello"@)
    ||| has_substring(m, "hi"@)
    ||| has_substring(m, "hey"@)
    ||| has_substring(m, "please"@)
    ||| has_substring(m, "thank"@)
    ||| has_substring(m, "thanks"@)
    ||| has_substring(m, "what"@)
    ||| has_substring(m, "where"@)
    ||| has_substring(m, "how"@)
    ||| has_substring(m, "who"@)
    ||| has_substring(m, "when"@)
    ||| has_substring(m, "why"@)
    ||| has_substring(m, "can you"@)
    ||| has_substring(m, "could you"@)
    ||| has_substring(m, "tell me"@)
    ||| has_substring(m, "speak"@)
    ||| has_substring(m, "in english"@)
}

/// English cues survive added text: when a lowercased text holds a cue, so
/// does any text that contains it. (This speaks of the lowercased text; how
/// lowercasing acts on a concatenation is not stated.)
pub proof fn lemma_english_cue_extends(m: Seq<char>, x: Seq<char>, y: Seq<char>)
    requires
        has_english_cue(m),
    ensures
        has_english_cue(x + m + y),
{
    assert forall|n: Seq<char>| has_substring(m, n) implies #[trigger] has_substring(
        x + m + y,
        n,
    ) by {
        lemma_substring_extends(m, n, x, y);
    }
}

/// Heuristic: the message looks English.
pub fn is_english_message(message: &str) -> (r: bool)
    ensures
        r == has_english_cue(spec_to_lowercase(message@)),
{
    let lower = to_lowercase(message);
    let m = chars_of(lower.as_str());
    contains_str(&m, "hello") || contains_str(&m, "hi") || contains_str(&m, "hey")
        || contains_str(&m, "please") || contains_str(&m, "thank") || contains_str(&m, "thanks")
        || contains_str(&m, "what") || contains_str(&m, "where") || contains_str(&m, "how")
        || contains_str(&m, "who") || contains_str(&m, "when") || contains_str(&m, "why")
        || contains_str(&m, "can you") || contains_str(&m, "could you") || contains_str(
        &m,
        "tell me",
    ) || contains_str(&m, "speak") || contains_str(&m, "in english")
}

// ---------------------------------------------------------------------------
// Greeting
// ---------------------------------------------------------------------------

pub const GREETING_EN_HEAD: &'static str = "Hello! I'm the TC Exchange Assistant from INSA Lyon. I can help you find exchange destinations among ";
pub const GREETING_EN_MID: &'static str = " destinations in ";
pub const GREETING_EN_TAIL: &'static str = " countries.\n\nYou can ask me about:\n• A specific destination (e.g., \"what is KIT?\")\n• A country (e.g., \"destinations in Canada\")\n• A language (e.g., \"where can I go to study in English?\")\n• General help about exchanges\n\nNote: Exchange programs are available for INSA Lyon TC students in 3TC, 4TC, 3TCA, or 4TCA (Telecommunications specialty).";
pub const GREETING_FR_HEAD: &'static str = "Bonjour ! Je suis l'assistant TC Exchange d'INSA Lyon. Je peux t'aider à trouver des destinations d'échange parmi ";
pub const GREETING_FR_MID: &'static str = " destinations dans ";
pub const GREETING_FR_TAIL: &'static str = " pays.\n\nTu peux me demander :\n• Une destination spécifique (ex: \"c'est quoi KIT ?\")\n• Un pays (ex: \"destinations au Canada\")\n• Une langue (ex: \"où partir en anglais ?\")\n• De l'aide générale sur les échanges\n\nNote : Les échanges sont ouverts aux étudiants TC de l'INSA Lyon en 3TC, 4TC, 3TCA ou 4TCA (spécialité Télécommunications).";

/// The welcome text in the given language, with both counts in decimal.
pub open spec fn greeting(lang: Seq<char>, destinations: nat, countries: nat) -> Seq<char> {
    if lang == "en"@ {
        GREETING_EN_HEAD@ + decimal(destinations) + GREETING_EN_MID@ + decimal(countries)
            + GREETING_EN_TAIL@
    } else {
        GREETING_FR_HEAD@ + decimal(destinations) + GREETING_FR_MID@ + decimal(countries)
            + GREETING_FR_TAIL@
    }
}

/// The welcome text: English when `lang` is `"en"`, French otherwise.
pub fn get_greeting(lang: &str, destinations_count: usize, countries_count: usize) -> (r: String)
    ensures
        r@ == greeting(lang@, destinations_count as nat, countries_count as nat),
{
    let english = str_eq(lang, "en");
    let mut s = String::new();
    if english {
        s.append(GREETING_EN_HEAD);
        push_decimal(&mut s, destinations_count as u64);
        s.append(GREETING_EN_MID);
        push_decimal(&mut s, countries_count as u64);
        s.append(GREETING_EN_TAIL);
    } else {
        s.append(GREETING_FR_HEAD);
        push_decimal(&mut s, destinations_count as u64);
        s.append(GREETING_FR_MID);
        push_decimal(&mut s, countries_count as u64);
        s.append(GREETING_FR_TAIL);
    }
    s
}


// ---------------------------------------------------------------------------
// Country information
// ---------------------------------------------------------------------------

/// The table of country descriptions (lowercased country name, text) for
/// English or French answers. No description has been written yet.
pub open spec fn country_info_table(english: bool) -> Seq<(Seq<char>, Seq<char>)> {
    seq![]
}

/// The text the table gives for `key`; a later entry overrides an earlier one.
pub open spec fn lookup(table: Seq<(Seq<char>, Seq<char>)>, key: Seq<char>) -> Option<Seq<char>>
    decreases table.len(),
{
    if table.len() == 0 {
        None
    } else if table.last().0 == key {
        Some(table.last().1)
    } else {
        lookup(table.drop_last(), key)
    }
}

/// The answer used when the table has nothing on the country.
pub open spec fn country_info_fallback(country: Seq<char>, english: bool) -> Seq<char> {
    if english {
        "I don't have detailed information about "@ + country
            + " yet, but I can tell you about the universities available there!"@
    } else {
        "Je n'ai pas encore d'informations détaillées sur "@ + country
            + ", mais je peux vous parler des universités disponibles !"@
    }
}

/// What is said about a country in the given language.
pub open spec fn country_info(country: Seq<char>, lang: Seq<char>) -> Seq<char> {
    let english = lang == "en"@;
    match lookup(country_info_table(english), spec_to_lowercase(country)) {
        Some(text) => text,
        None => country_info_fallback(country, english),
    }
}

fn country_info_entries(english: bool) -> (r: Vec<(String, String)>)
    ensures
        r@.map_values(|e: (String, String)| (e.0@, e.1@)) == country_info_table(english),
{
    let r: Vec<(String, String)> = Vec::new();
    assert(r@.map_values(|e: (String, String)| (e.0@, e.1@)) =~= country_info_table(english));
    r
}

/// General information about a country (not about its universities).
pub fn get_country_info(country: &str, lang: &str) -> (r: String)
    ensures
        r@ == country_info(country@, lang@),
{
    let key = to_lowercase(country);
    let english = str_eq(lang, "en");
    let table = country_info_entries(english);
    let ghost t = table@.map_values(|e: (String, String)| (e.0@, e.1@));
    let mut k = table.len();
    while k > 0
        invariant
            k <= table@.len(),
            t == table@.map_values(|e: (String, String)| (e.0@, e.1@)),
            t == country_info_table(english),
            key@ == spec_to_lowercase(country@),
            english == (lang@ == "en"@),
            lookup(t, key@) == lookup(t.take(k as int), key@),
        decreases k,
    {
        let ghost tk = t.take(k as int);
        assert(tk.last() == t[k - 1]);
        assert(tk.drop_last() =~= t.take(k - 1));
        assert(t[k - 1] == (table@[k - 1].0@, table@[k - 1].1@));
        if table[k - 1].0 == key {
            assert(lookup(tk, key@) == Some(table@[k - 1].1@));
            return table[k - 1].1.clone();
        }
        k -= 1;
    }
    assert(t.take(0) =~= Seq::<(Seq<char>, Seq<char>)>::empty());
    let mut s = String::new();
    if english {
        s.append("I don't have detailed information about ");
        s.append(country);
        s.append(" yet, but I can tell you about the universities available there!");
    } else {
        s.append("Je n'ai pas encore d'informations détaillées sur ");
        s.append(country);
        s.append(", mais je peux vous parler des universités disponibles !");
    }
    s
}

// ---------------------------------------------------------------------------
// Countries and languages on offer
// ---------------------------------------------------------------------------

/// `c` is the country of one of the destinations.
pub open spec fn is_country_of(ds: Seq<Destination>, c: Seq<char>) -> bool {
    exists|i: int| 0 <= i < ds.len() && (#[trigger] ds[i]).country@ == c
}

/// The destination's language field is present and equal to `l`.
pub open spec fn has_language(d: Destination, l: Seq<char>) -> bool {
    match d.languages {
        Some(x) => x@ == l,
        None => false,
    }
}

/// `l` is the language field of one of the destinations.
pub open spec fn is_language_of(ds: Seq<Destination>, l: Seq<char>) -> bool {
    exists|i: int| 0 <= i < ds.len() && #[trigger] has_language(ds[i], l)
}

/// The distinct countries of the destinations, in increasing order.
pub fn get_countries(destinations: &[Destination]) -> (r: Vec<String>)
    ensures
        strictly_sorted(views(r@)),
        forall|c: Seq<char>| #[trigger] views(r@).contains(c) <==> is_country_of(destinations@, c),
{
    let n = destinations.len();
    let mut r: Vec<String> = Vec::new();
    for i in 0..n
        invariant
            n == destinations@.len(),
            strictly_sorted(views(r@)),
            forall|c: Seq<char>| #[trigger] views(r@).contains(c) <==> is_country_of(
                destinations@.take(i as int),
                c,
            ),
    {
        insert_sorted(&mut r, destinations[i].country.clone());
        assert forall|c: Seq<char>| #[trigger] views(r@).contains(c) <==> is_country_of(
            destinations@.take(i + 1),
            c,
        ) by {
            let ds1 = destinations@.take(i + 1);
            let ds0 = destinations@.take(i as int);
            if is_country_of(ds1, c) {
                let j = choose|j: int| 0 <= j < ds1.len() && (#[trigger] ds1[j]).country@ == c;
                if j < i {
                    assert(ds0[j] == ds1[j]);
                }
            }
            if is_country_of(ds0, c) {
                let j = choose|j: int| 0 <= j < ds0.len() && (#[trigger] ds0[j]).country@ == c;
                assert(ds1[j] == ds0[j]);
            }
            if c == destinations@[i as int].country@ {
                assert(ds1[i as int] == destinations@[i as int]);
            }
        }
    }
    assert(destinations@.take(n as int) =~= destinations@);
    r
}

/// The list of countries depends only on which countries occur: two
/// catalogues with the same countries, in any order and with any repetition,
/// give the same list.
pub proof fn lemma_country_list_determined(
    ds1: Seq<Destination>,
    ds2: Seq<Destination>,
    r1: Seq<Seq<char>>,
    r2: Seq<Seq<char>>,
)
    requires
        forall|c: Seq<char>| is_country_of(ds1, c) <==> is_country_of(ds2, c),
        strictly_sorted(r1),
        forall|c: Seq<char>| #[trigger] r1.contains(c) <==> is_country_of(ds1, c),
        strictly_sorted(r2),
        forall|c: Seq<char>| #[trigger] r2.contains(c) <==> is_country_of(ds2, c),
    ensures
        r1 == r2,
{
    lemma_sorted_unique(r1, r2);
}

/// The distinct language fields of the destinations, in increasing order.
pub fn get_languages(destinations: &[Destination]) -> (r: Vec<String>)
    ensures
        strictly_sorted(views(r@)),
        forall|l: Seq<char>| #[trigger] views(r@).contains(l) <==> is_language_of(destinations@, l),
{
    let n = destinations.len();
    let mut r: Vec<String> = Vec::new();
    for i in 0..n
        invariant
            n == destinations@.len(),
            strictly_sorted(views(r@)),
            forall|l: Seq<char>| #[trigger] views(r@).contains(l) <==> is_language_of(
                destinations@.take(i as int),
                l,
            ),
    {
        match &destinations[i].languages {
            Some(x) => {
                insert_sorted(&mut r, x.clone());
            },
            None => {},
        }
        assert forall|l: Seq<char>| #[trigger] views(r@).contains(l) <==> is_language_of(
            destinations@.take(i + 1),
            l,
        ) by {
            let ds1 = destinations@.take(i + 1);
            let ds0 = destinations@.take(i as int);
            if is_language_of(ds1, l) {
                let j = choose|j: int| 0 <= j < ds1.len() && #[trigger] has_language(ds1[j], l);
                if j < i {
                    assert(ds0[j] == ds1[j]);
                }
            }
            if is_language_of(ds0, l) {
                let j = choose|j: int| 0 <= j < ds0.len() && #[trigger] has_language(ds0[j], l);
                assert(ds1[j] == ds0[j]);
            }
            if has_language(destinations@[i as int], l) {
                assert(ds1[i as int] == destinations@[i as int]);
            }
        }
    }
    assert(destinations@.take(n as int) =~= destinations@);
    r
}


// ---------------------------------------------------------------------------
// Matching a destination named in a message
// ---------------------------------------------------------------------------

/// Points for the (lowercased) short name: 100 when it is the whole message,
/// 50 plus its UTF-8 length when it is one of the message's words.
pub open spec fn short_name_points(msg: Seq<char>, msg_words: Seq<Seq<char>>, short: Seq<char>) -> int {
    if short == msg {
        100
    } else if msg_words.contains(short) {
        50 + utf8_len(short) as int
    } else {
        0
    }
}

/// Points for one word of the (lowercased) university name: 20 plus its
/// UTF-8 length when it is longer than 3 bytes and is one of the message's words.
pub open spec fn name_word_points(w: Seq<char>, msg_words: Seq<Seq<char>>) -> int {
    if utf8_len(w) > 3 && msg_words.contains(w) {
        20 + utf8_len(w) as int
    } else {
        0
    }
}

/// Points for all words of the university name (a word counts each time it occurs).
pub open spec fn name_points(name_words: Seq<Seq<char>>, msg_words: Seq<Seq<char>>) -> int
    decreases name_words.len(),
{
    if name_words.len() == 0 {
        0
    } else {
        name_points(name_words.drop_last(), msg_words) + name_word_points(
            name_words.last(),
            msg_words,
        )
    }
}

/// Points for the short name of a destination; none when it has no short name.
pub open spec fn short_points(msg: Seq<char>, msg_words: Seq<Seq<char>>, d: Destination) -> int {
    match d.short_name {
        Some(s) => short_name_points(msg, msg_words, spec_to_lowercase(s@)),
        None => 0,
    }
}

/// How well a destination matches a lowercased message.
pub open spec fn destination_score(msg: Seq<char>, d: Destination) -> int {
    let msg_words = words(msg);
    short_points(msg, msg_words, d) + name_points(
        words(spec_to_lowercase(d.university_name@)),
        msg_words,
    )
}

/// The scores of all destinations against a lowercased message.
pub open spec fn scores(msg: Seq<char>, ds: Seq<Destination>) -> Seq<int> {
    Seq::new(ds.len(), |i: int| destination_score(msg, ds[i]))
}

/// The largest score, or 0 when there is none above 0.
pub open spec fn max_score(s: Seq<int>) -> int
    decreases s.len(),
{
    if s.len() == 0 {
        0
    } else if s.last() > max_score(s.drop_last()) {
        s.last()
    } else {
        max_score(s.drop_last())
    }
}

/// The first position holding `v` (meaningful when `s` contains `v`).
pub open spec fn first_index_of(s: Seq<int>, v: int) -> int
    decreases s.len(),
{
    if s.len() == 0 {
        -1
    } else if s.drop_last().contains(v) {
        first_index_of(s.drop_last(), v)
    } else {
        s.len() - 1
    }
}

/// The destination a lowercased message names: the first one with the best
/// score, provided that score reaches 10.
pub open spec fn found_index(msg: Seq<char>, ds: Seq<Destination>) -> Option<int> {
    let sc = scores(msg, ds);
    if max_score(sc) >= 10 {
        Some(first_index_of(sc, max_score(sc)))
    } else {
        None
    }
}

pub proof fn lemma_max_score(s: Seq<int>)
    ensures
        max_score(s) >= 0,
        forall|k: int| 0 <= k < s.len() ==> s[k] <= max_score(s),
        max_score(s) > 0 ==> s.contains(max_score(s)),
    decreases s.len(),
{
    if s.len() > 0 {
        let t = s.drop_last();
        lemma_max_score(t);
        assert forall|k: int| 0 <= k < s.len() implies s[k] <= max_score(s) by {
            if k < s.len() - 1 {
                assert(s[k] == t[k]);
            }
        }
        if max_score(s) > 0 {
            if s.last() > max_score(t) {
                assert(s[s.len() - 1] == max_score(s));
            } else {
                let j = choose|j: int| 0 <= j < t.len() && t[j] == max_score(t);
                assert(s[j] == t[j]);
            }
        }
    }
}

pub proof fn lemma_first_index_of(s: Seq<int>, v: int)
    requires
        s.contains(v),
    ensures
        0 <= first_index_of(s, v) < s.len(),
        s[first_index_of(s, v)] == v,
        forall|k: int| 0 <= k < first_index_of(s, v) ==> s[k] != v,
    decreases s.len(),
{
    let t = s.drop_last();
    if t.contains(v) {
        lemma_first_index_of(t, v);
        let f = first_index_of(t, v);
        assert(s[f] == t[f]);
        assert forall|k: int| 0 <= k < f implies s[k] != v by {
            assert(s[k] == t[k]);
        }
    } else {
        assert forall|k: int| 0 <= k < s.len() - 1 implies s[k] != v by {
            assert(s[k] == t[k]);
        }
        let j = choose|j: int| 0 <= j < s.len() && s[j] == v;
        assert(j == s.len() - 1);
    }
}

/// The destination found is the first with the highest score and scores at
/// least 10; when none is found every score is below 10.
pub proof fn lemma_found_index_is_first_best(msg: Seq<char>, ds: Seq<Destination>)
    ensures
        match found_index(msg, ds) {
            Some(i) => {
                &&& 0 <= i < ds.len()
                &&& destination_score(msg, ds[i]) >= 10
                &&& forall|j: int|
                    0 <= j < ds.len() ==> destination_score(msg, #[trigger] ds[j])
                        <= destination_score(msg, ds[i])
                &&& forall|j: int|
                    0 <= j < i ==> destination_score(msg, #[trigger] ds[j]) < destination_score(
                        msg,
                        ds[i],
                    )
            },
            None => forall|j: int|
                0 <= j < ds.len() ==> destination_score(msg, #[trigger] ds[j]) < 10,
        },
{
    let sc = scores(msg, ds);
    lemma_max_score(sc);
    if max_score(sc) >= 10 {
        lemma_first_index_of(sc, max_score(sc));
        let i = first_index_of(sc, max_score(sc));
        assert forall|j: int| 0 <= j < ds.len() implies destination_score(msg, #[trigger] ds[j])
            <= destination_score(msg, ds[i]) by {
            assert(sc[j] == destination_score(msg, ds[j]));
        }
        assert forall|j: int| 0 <= j < i implies destination_score(msg, #[trigger] ds[j])
            < destination_score(msg, ds[i]) by {
            assert(sc[j] == destination_score(msg, ds[j]));
        }
    } else {
        assert forall|j: int| 0 <= j < ds.len() implies destination_score(msg, #[trigger] ds[j])
            < 10 by {
            assert(sc[j] == destination_score(msg, ds[j]));
        }
    }
}

pub proof fn lemma_name_points_nonneg(name_words: Seq<Seq<char>>, msg_words: Seq<Seq<char>>)
    ensures
        name_points(name_words, msg_words) >= 0,
    decreases name_words.len(),
{
    if name_words.len() > 0 {
        lemma_name_points_nonneg(name_words.drop_last(), msg_words);
    }
}

/// The points of a university name add up over its words: the points of
/// `ws` followed by `vs` are the points of `ws` plus the points of `vs`.
pub proof fn lemma_name_points_additive(
    ws: Seq<Seq<char>>,
    vs: Seq<Seq<char>>,
    msg_words: Seq<Seq<char>>,
)
    ensures
        name_points(ws + vs, msg_words) == name_points(ws, msg_words) + name_points(
            vs,
            msg_words,
        ),
    decreases vs.len(),
{
    if vs.len() == 0 {
        assert(ws + vs =~= ws);
    } else {
        lemma_name_points_additive(ws, vs.drop_last(), msg_words);
        assert((ws + vs).drop_last() =~= ws + vs.drop_last());
        assert((ws + vs).last() == vs.last());
    }
}

/// A single name word is worth 20 plus its UTF-8 length when it is longer
/// than 3 bytes and is one of the message's words, and nothing otherwise.
pub proof fn lemma_name_points_one_word(w: Seq<char>, msg_words: Seq<Seq<char>>)
    ensures
        name_points(seq![w], msg_words) == (if utf8_len(w) > 3 && msg_words.contains(w) {
            20 + utf8_len(w) as int
        } else {
            0
        }),
{
    assert(seq![w].drop_last() =~= Seq::<Seq<char>>::empty());
    assert(seq![w].last() == w);
    assert(name_points(Seq::<Seq<char>>::empty(), msg_words) == 0);
    assert(name_points(seq![w], msg_words) == name_points(seq![w].drop_last(), msg_words)
        + name_word_points(w, msg_words));
}

/// Name words that are not in the message are worth nothing.
pub proof fn lemma_name_points_unmatched(ws: Seq<Seq<char>>, msg_words: Seq<Seq<char>>)
    requires
        forall|t: int| 0 <= t < ws.len() ==> !msg_words.contains(#[trigger] ws[t]),
    ensures
        name_points(ws, msg_words) == 0,
    decreases ws.len(),
{
    if ws.len() > 0 {
        let t = ws.drop_last();
        assert forall|k: int| 0 <= k < t.len() implies !msg_words.contains(#[trigger] t[k]) by {
            assert(t[k] == ws[k]);
        }
        lemma_name_points_unmatched(t, msg_words);
        assert(ws.last() == ws[ws.len() - 1]);
    }
}

/// Each name word of more than 3 bytes that the message holds adds its
/// points: the name scores at least 20 plus that word's UTF-8 length.
pub proof fn lemma_name_points_matched_word(ws: Seq<Seq<char>>, msg_words: Seq<Seq<char>>, k: int)
    requires
        0 <= k < ws.len(),
        utf8_len(ws[k]) > 3,
        msg_words.contains(ws[k]),
    ensures
        name_points(ws, msg_words) >= 20 + utf8_len(ws[k]),
{
    let front = ws.take(k);
    let back = ws.skip(k + 1);
    assert(ws =~= front + seq![ws[k]] + back);
    lemma_name_points_additive(front + seq![ws[k]], back, msg_words);
    lemma_name_points_additive(front, seq![ws[k]], msg_words);
    lemma_name_points_one_word(ws[k], msg_words);
    lemma_name_points_nonneg(front, msg_words);
    lemma_name_points_nonneg(back, msg_words);
}

/// A message naming more of a destination's university name wins: when two
/// destinations' lowercased names share their last words `c`, the first's
/// other words `a` hold a word of more than 3 bytes that the message holds,
/// the second's other words `b` hold none of the message's words, and the
/// first scores at least as much on its short name, then the first scores
/// higher and the second is not the one found.
pub proof fn lemma_more_named_words_win(
    msg: Seq<char>,
    ds: Seq<Destination>,
    i: int,
    j: int,
    a: Seq<Seq<char>>,
    b: Seq<Seq<char>>,
    c: Seq<Seq<char>>,
    k: int,
)
    requires
        0 <= i < ds.len(),
        0 <= j < ds.len(),
        words(spec_to_lowercase(ds[i].university_name@)) == a + c,
        words(spec_to_lowercase(ds[j].university_name@)) == b + c,
        short_points(msg, words(msg), ds[i]) >= short_points(msg, words(msg), ds[j]),
        forall|t: int| 0 <= t < b.len() ==> !words(msg).contains(#[trigger] b[t]),
        0 <= k < a.len(),
        utf8_len(a[k]) > 3,
        words(msg).contains(a[k]),
    ensures
        destination_score(msg, ds[i]) > destination_score(msg, ds[j]),
        found_index(msg, ds) != Some(j),
{
    let mw = words(msg);
    lemma_name_points_additive(a, c, mw);
    lemma_name_points_additive(b, c, mw);
    lemma_name_points_unmatched(b, mw);
    lemma_name_points_matched_word(a, mw, k);
    lemma_found_index_is_first_best(msg, ds);
}

/// A message that is exactly the (lowercased) short name of some destination
/// always finds a destination, with a score of at least 100.
pub proof fn lemma_exact_short_name_found(msg: Seq<char>, ds: Seq<Destination>, i: int)
    requires
        0 <= i < ds.len(),
        ds[i].short_name matches Some(s) && spec_to_lowercase(s@) == msg,
    ensures
        found_index(msg, ds) matches Some(j) && destination_score(msg, ds[j]) >= 100,
{
    let d = ds[i];
    lemma_name_points_nonneg(words(spec_to_lowercase(d.university_name@)), words(msg));
    assert(destination_score(msg, d) >= 100);
    let sc = scores(msg, ds);
    lemma_max_score(sc);
    assert(sc[i] == destination_score(msg, d));
    lemma_found_index_is_first_best(msg, ds);
}

fn name_points_exec(name_words: &Vec<Vec<char>>, msg_words: &Vec<Vec<char>>) -> (r: u128)
    requires
        forall|j: int|
            0 <= j < name_words@.len() ==> (#[trigger] char_views(name_words@)[j]).len() >= 1,
        total_len(char_views(name_words@)) <= usize::MAX,
    ensures
        r == name_points(char_views(name_words@), char_views(msg_words@)),
        r <= 24 * total_len(char_views(name_words@)),
{
    let n = name_words.len();
    let ghost nw = char_views(name_words@);
    let ghost mw = char_views(msg_words@);
    proof {
        lemma_total_len_take(nw, 0);
        assert(nw.take(0) =~= Seq::<Seq<char>>::empty());
    }
    let mut total: u128 = 0;
    for k in 0..n
        invariant
            n == name_words@.len(),
            nw == char_views(name_words@),
            mw == char_views(msg_words@),
            total == name_points(nw.take(k as int), mw),
            total <= 24 * total_len(nw.take(k as int)),
            forall|j: int| 0 <= j < nw.len() ==> (#[trigger] nw[j]).len() >= 1,
            total_len(nw) <= usize::MAX,
    {
        let w = &name_words[k];
        let ghost pre = nw.take(k as int);
        let ghost post = nw.take(k + 1);
        assert(post.drop_last() =~= pre);
        assert(post.last() == w@);
        assert(nw[k as int] == w@);
        proof {
            lemma_total_len_take(nw, k + 1);
            assert(total_len(post) == total_len(pre) + w@.len());
        }
        let len = utf8_len_of(w);
        if len > 3 && contains_word(msg_words, w) {
            total = total + 20 + len;
        }
    }
    assert(nw.take(n as int) =~= nw);
    total
}

fn destination_score_exec(msg: &Vec<char>, msg_words: &Vec<Vec<char>>, d: &Destination) -> (r: u128)
    requires
        char_views(msg_words@) == words(msg@),
    ensures
        r == destination_score(msg@, *d),
{
    let short_pts: u128 = match &d.short_name {
        Some(s) => {
            let short_lower = to_lowercase(s.as_str());
            let sc = chars_of(short_lower.as_str());
            assert(sc@.len() == sc.len());
            if chars_eq(&sc, msg) {
                100
            } else if contains_word(msg_words, &sc) {
                50 + utf8_len_of(&sc)
            } else {
                0
            }
        },
        None => 0,
    };
    let name_lower = to_lowercase(d.university_name.as_str());
    let nc = chars_of(name_lower.as_str());
    let name_words = split_words(&nc);
    proof {
        lemma_words_bounded(nc@);
        assert(nc@.len() == nc.len());
    }
    let name_pts = name_points_exec(&name_words, msg_words);
    short_pts + name_pts
}

/// The destination a message names: the message is lowercased and split into
/// words; each destination is scored on its short name and on the words of
/// its university name; the first best-scoring destination is returned when
/// its score reaches 10.
pub fn find_destination<'a>(text: &str, destinations: &'a [Destination]) -> (r: Option<
    &'a Destination,
>)
    ensures
        match found_index(spec_to_lowercase(text@), destinations@) {
            Some(i) => r == Some(&destinations@[i]),
            None => r is None,
        },
{
    let lower = to_lowercase(text);
    let msg = chars_of(lower.as_str());
    let msg_words = split_words(&msg);
    let ghost sc = scores(msg@, destinations@);
    let n = destinations.len();
    let mut best_score: u128 = 0;
    let mut best: Option<usize> = None;
    for i in 0..n
        invariant
            n == destinations@.len(),
            sc == scores(msg@, destinations@),
            char_views(msg_words@) == words(msg@),
            best_score == max_score(sc.take(i as int)),
            match best {
                Some(b) => best_score > 0 && b < i && b == first_index_of(sc.take(i as int), best_score as int),
                None => best_score == 0,
            },
    {
        let ghost pre = sc.take(i as int);
        let ghost post = sc.take(i + 1);
        proof {
            assert(post.drop_last() =~= pre);
            assert(post.last() == sc[i as int]);
            lemma_max_score(pre);
        }
        let score = destination_score_exec(&msg, &msg_words, &destinations[i]);
        assert(score == sc[i as int]);
        if score > best_score {
            proof {
                assert(!pre.contains(score as int)) by {
                    if pre.contains(score as int) {
                        let j = choose|j: int| 0 <= j < pre.len() && pre[j] == score as int;
                    }
                }
            }
            best_score = score;
            best = Some(i);
        } else {
            proof {
                if best_score > 0 {
                    assert(pre.contains(best_score as int));
                }
            }
        }
    }
    assert(sc.take(n as int) =~= sc);
    if best_score >= 10 {
        match best {
            Some(b) => Some(&destinations[b]),
            None => None,
        }
    } else {
        None
    }
}


/// The destination named in one of the last four messages, the most recent
/// message first (`k` counts messages back from the newest).
pub open spec fn recent_match(h: Seq<ChatMessage>, ds: Seq<Destination>, k: nat) -> Option<int>
    decreases 4 - k,
{
    if k >= 4 || k >= h.len() {
        None
    } else {
        match found_index(spec_to_lowercase(h[h.len() - 1 - k].content@), ds) {
            Some(i) => Some(i),
            None => recent_match(h, ds, k + 1),
        }
    }
}

/// Only the last four messages count: dropping older ones changes nothing.
pub proof fn lemma_history_window(h: Seq<ChatMessage>, ds: Seq<Destination>, k: nat)
    requires
        h.len() >= 4,
        k <= 4,
    ensures
        recent_match(h, ds, k) == recent_match(h.skip(h.len() - 4), ds, k),
    decreases 4 - k,
{
    let t = h.skip(h.len() - 4);
    if k < 4 {
        assert(t[t.len() - 1 - k] == h[h.len() - 1 - k]);
        lemma_history_window(h, ds, k + 1);
    }
}

/// Looks for a destination named in the last four messages of the history.
pub fn find_in_history<'a>(history: &'a [ChatMessage], destinations: &'a [Destination]) -> (r:
    Option<&'a Destination>)
    ensures
        match recent_match(history@, destinations@, 0) {
            Some(i) => r == Some(&destinations@[i]),
            None => r is None,
        },
{
    let n = history.len();
    let mut k: usize = 0;
    while k < 4 && k < n
        invariant
            n == history@.len(),
            k <= 4,
            recent_match(history@, destinations@, 0) == recent_match(
                history@,
                destinations@,
                k as nat,
            ),
        decreases 4 - k,
    {
        let found = find_destination(history[n - 1 - k].content.as_str(), destinations);
        if found.is_some() {
            return found;
        }
        k += 1;
    }
    None
}

/// Presentation of one destination in an answer (no presentation is produced yet).
pub fn format_destination(dest: &Destination, lang: &str) -> (r: String)
    ensures
        r@ == Seq::<char>::empty(),
{
    String::new()
}

/// An answer built from the catalogue alone, without the AI service; none is
/// produced yet, and the context is left as it was.
pub fn build_response(
    message: &str,
    history: &[ChatMessage],
    destinations: &[Destination],
    context: &mut ChatContext,
) -> (r: Option<String>)
    ensures
        r is None,
        final(context).language@ == old(context).language@,
{
    None
}

/// The prompt handed to the AI service (empty for now).
pub fn create_ai_prompt(
    message: &str,
    history: &[ChatMessage],
    destinations: &[Destination],
    context: &ChatContext,
) -> (r: String)
    ensures
        r@ == Seq::<char>::empty(),
{
    String::new()
}

// ---------------------------------------------------------------------------
// Handling a chat request
// ---------------------------------------------------------------------------

/// The language after the history: the last switch asked for, French when none.
pub open spec fn history_language(h: Seq<ChatMessage>) -> Seq<char>
    decreases h.len(),
{
    if h.len() == 0 {
        "fr"@
    } else {
        match language_switch(h.last().content@) {
            Some(l) => l,
            None => history_language(h.drop_last()),
        }
    }
}

/// The language of the answer: the one the new message asks for; else English
/// when the message looks English; else the language of the history.
pub open spec fn chat_language(h: Seq<ChatMessage>, message: Seq<char>) -> Seq<char> {
    match language_switch(message) {
        Some(l) => l,
        None => if has_english_cue(spec_to_lowercase(message)) {
            "en"@
        } else {
            history_language(h)
        },
    }
}

/// The context of a request: the language the conversation is held in.
pub fn conversation_context(payload: &ChatRequest) -> (r: ChatContext)
    ensures
        r.language@ == chat_language(payload.history@, payload.message@),
{
    let mut context = ChatContext::default();
    let n = payload.history.len();
    for i in 0..n
        invariant
            n == payload.history@.len(),
            context.language@ == history_language(payload.history@.take(i as int)),
    {
        let ghost pre = payload.history@.take(i as int);
        let ghost post = payload.history@.take(i + 1);
        assert(post.drop_last() =~= pre);
        assert(post.last() == payload.history@[i as int]);
        if let Some(lang) = detect_language_switch(payload.history[i].content.as_str()) {
            context.language = lang;
        }
    }
    assert(payload.history@.take(n as int) =~= payload.history@);
    if let Some(lang) = detect_language_switch(payload.message.as_str()) {
        context.language = lang;
    } else if is_english_message(payload.message.as_str()) {
        context.language = owned("en");
    }
    context
}

/// `small` is found at position `i` of the literal-built text `big`.
proof fn lemma_occurs_in(big: Seq<char>, small: Seq<char>, i: int, m: Seq<char>)
    requires
        occurs_at(big, small, i),
        has_substring(m, big),
    ensures
        has_substring(m, small),
{
    lemma_substring_trans(m, big, small);
}

/// Every way of asking for English holds the word "english"; every way of
/// asking for French holds "français", "francais" or "in french".
proof fn lemma_request_words(m: Seq<char>)
    ensures
        asks_english(m) <==> has_substring(m, "english"@),
        asks_french(m) <==> (has_substring(m, "français"@) || has_substring(m, "francais"@)
            || has_substring(m, "in french"@)),
{
    reveal_strlit("english");
    reveal_strlit("in english");
    reveal_strlit("speak english");
    reveal_strlit("can we speak in english");
    reveal_strlit("français");
    reveal_strlit("parle français");
    if has_substring(m, "in english"@) {
        assert("in english"@.subrange(3, 10) =~= "english"@);
        lemma_occurs_in("in english"@, "english"@, 3, m);
    }
    if has_substring(m, "speak english"@) {
        assert("speak english"@.subrange(6, 13) =~= "english"@);
        lemma_occurs_in("speak english"@, "english"@, 6, m);
    }
    if has_substring(m, "can we speak in english"@) {
        assert("can we speak in english"@.subrange(16, 23) =~= "english"@);
        lemma_occurs_in("can we speak in english"@, "english"@, 16, m);
    }
    if has_substring(m, "parle français"@) {
        assert("parle français"@.subrange(6, 14) =~= "français"@);
        lemma_occurs_in("parle français"@, "français"@, 6, m);
    }
}

/// A language asked for in the new message decides the conversation
/// language, whatever English cue words the message also holds: English when
/// its lowercased text holds "english", else French when it holds
/// "français", "francais" or "in french". English cue words decide only when
/// the message asks for no language; with neither, the history decides.
pub proof fn lemma_requested_language_wins(h: Seq<ChatMessage>, message: Seq<char>)
    ensures
        has_substring(spec_to_lowercase(message), "english"@) ==> chat_language(h, message)
            == "en"@,
        !has_substring(spec_to_lowercase(message), "english"@) && (has_substring(
            spec_to_lowercase(message),
            "français"@,
        ) || has_substring(spec_to_lowercase(message), "francais"@) || has_substring(
            spec_to_lowercase(message),
            "in french"@,
        )) ==> chat_language(h, message) == "fr"@,
        !asks_english(spec_to_lowercase(message)) && !asks_french(spec_to_lowercase(message))
            && has_english_cue(spec_to_lowercase(message)) ==> chat_language(h, message)
            == "en"@,
        !asks_english(spec_to_lowercase(message)) && !asks_french(spec_to_lowercase(message))
            && !has_english_cue(spec_to_lowercase(message)) ==> chat_language(h, message)
            == history_language(h),
{
    lemma_request_words(spec_to_lowercase(message));
}

/// The language of a history: French when it is empty; after one more turn,
/// the language that turn asks for (English when its lowercased text holds
/// "english", else French when it holds "français", "francais" or
/// "in french"), and otherwise the language before it.
pub proof fn lemma_history_language_step(h: Seq<ChatMessage>, msg: ChatMessage)
    ensures
        history_language(Seq::<ChatMessage>::empty()) == "fr"@,
        has_substring(spec_to_lowercase(msg.content@), "english"@) ==> history_language(
            h.push(msg),
        ) == "en"@,
        !has_substring(spec_to_lowercase(msg.content@), "english"@) && (has_substring(
            spec_to_lowercase(msg.content@),
            "français"@,
        ) || has_substring(spec_to_lowercase(msg.content@), "francais"@) || has_substring(
            spec_to_lowercase(msg.content@),
            "in french"@,
        )) ==> history_language(h.push(msg)) == "fr"@,
        !asks_english(spec_to_lowercase(msg.content@)) && !asks_french(
            spec_to_lowercase(msg.content@),
        ) ==> history_language(h.push(msg)) == history_language(h),
{
    lemma_request_words(spec_to_lowercase(msg.content@));
    assert(h.push(msg).drop_last() =~= h);
    assert(h.push(msg).last() == msg);
}

/// What to do with a chat request: answer from the catalogue, or ask the AI
/// service with a prompt, answering in the conversation's language.
pub enum ChatPlan {
    Answer(ChatResponse),
    AskAi { language: String, prompt: String },
}

/// Decides how a chat request is answered. The catalogue gives no direct
/// answer yet, so the request always goes to the AI service.
pub fn plan_chat(payload: &ChatRequest, destinations: &[Destination]) -> (r: ChatPlan)
    ensures
        r matches ChatPlan::AskAi { language, prompt } && language@ == chat_language(
            payload.history@,
            payload.message@,
        ) && prompt@ == Seq::<char>::empty(),
{
    let mut context = conversation_context(payload);
    let direct = build_response(
        payload.message.as_str(),
        payload.history.as_slice(),
        destinations,
        &mut context,
    );
    match direct {
        Some(response) => ChatPlan::Answer(ChatResponse { response }),
        None => {
            let prompt = create_ai_prompt(
                payload.message.as_str(),
                payload.history.as_slice(),
                destinations,
                &context,
            );
            ChatPlan::AskAi { language: context.language, prompt }
        },
    }
}

/// The answer when no AI key is configured.
pub open spec fn offline_text(language: Seq<char>) -> Seq<char> {
    if language == "en"@ {
        "Sorry, my AI brain is offline (no API key)."@
    } else {
        "Désolé, mon cerveau IA est hors ligne (clé API manquante)."@
    }
}

/// The answer when the AI service failed.
pub open spec fn failure_text(language: Seq<char>) -> Seq<char> {
    if language == "en"@ {
        "Sorry, I'm experiencing technical issues. Please try again in a moment!"@
    } else {
        "Désolé, je rencontre un problème technique. Réessaie dans un instant !"@
    }
}

/// Answer given when the AI service cannot be used for lack of a key.
pub fn offline_reply(language: &str) -> (r: ChatResponse)
    ensures
        r.response@ == offline_text(language@),
{
    if str_eq(language, "en") {
        ChatResponse { response: owned("Sorry, my AI brain is offline (no API key).") }
    } else {
        ChatResponse {
            response: owned("Désolé, mon cerveau IA est hors ligne (clé API manquante)."),
        }
    }
}

/// Answer from the outcome of the AI call: its text, or an apology in the
/// conversation's language when the call failed.
pub fn finish_chat(language: &str, ai_reply: Option<String>) -> (r: ChatResponse)
    ensures
        r.response@ == match ai_reply {
            Some(t) => t@,
            None => failure_text(language@),
        },
{
    match ai_reply {
        Some(response) => ChatResponse { response },
        None => if str_eq(language, "en") {
            ChatResponse {
                response: owned(
                    "Sorry, I'm experiencing technical issues. Please try again in a moment!",
                ),
            }
        } else {
            ChatResponse {
                response: owned(
                    "Désolé, je rencontre un problème technique. Réessaie dans un instant !",
                ),
            }
        },
    }
}

/// The text of a successful AI completion: its first choice, or a default
/// apology when it holds no choice.
pub fn completion_text(first_choice: Option<String>) -> (r: String)
    ensures
        r@ == match first_choice {
            Some(t) => t@,
            None => "Désolé, je n'ai pas compris."@,
        },
{
    match first_choice {
        Some(t) => t,
        None => owned("Désolé, je n'ai pas compris."),
    }
}

} // verus!

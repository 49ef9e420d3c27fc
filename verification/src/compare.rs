//! The comparison engine: checks, database query text, the comparison
//! prompt, the follow-up prompt, and the reading of the AI service's reply.
use vstd::prelude::*;

use crate::text::{
    chars_of, contains_str, debug_strings, decimal, decimal_i32, decimal_int, has_substring,
    ends_with, join, join_strings, lemma_ends_with_prefix, lemma_ends_with_trans,
    lemma_join_contains, lemma_join_ends_with_last, lemma_join_shape, lemma_middle_piece_occurs,
    lemma_substring_extends, lemma_tail_pieces_occur, opt_chars, owned, push_decimal, spec_debug_strings, str_eq, trim, trim_str, views,
};

verus! {

/// A destination row as read for a comparison.
pub struct DestRow {
    pub university_name: Option<String>,
    pub location: Option<String>,
    pub country: Option<String>,
    pub description: Option<String>,
    pub languages: Option<String>,
    pub exchange_type: Option<String>,
}

/// What a follow-up question refers to: the compared destinations, the
/// criteria and the verdict given before.
pub struct CompareChatContext {
    pub destinations: Vec<String>,
    pub criteria: Vec<String>,
    pub previous_verdict: String,
}

/// One turn of the follow-up conversation.
pub struct CompareChatMessage {
    pub role: String,
    pub content: String,
}

/// What came back from the AI service: no answer at all (network failure),
/// or an HTTP status with the text found at
/// `candidates[0].content.parts[0].text` of the body, if any.
pub enum GeminiReply {
    NetworkError,
    Received { status: u16, text: Option<String> },
}

/// The text at `candidates[0].content.parts[0].text` of a reply body, when
/// the body is JSON and that entry is a string (a function of the body alone).
pub uninterp spec fn spec_gemini_text(body: Seq<u8>) -> Option<Seq<char>>;

/// Trusted: `serde_json::from_slice::<serde_json::Value>` on the reply body
/// (`Null` when it fails), then indexing `candidates[0].content.parts[0].text`
/// and `as_str`. Claims only that the result is `spec_gemini_text` of the body.
#[verifier::external_body]
fn gemini_text(body: &[u8]) -> (r: Option<String>)
    ensures
        opt_chars(r) == spec_gemini_text(body@),
{
    let v: serde_json::Value = serde_json::from_slice(body).unwrap_or_default();
    v["candidates"][0]["content"]["parts"][0]["text"].as_str().map(|t| t.to_string())
}

/// The reply as received: its status and the text read out of its body.
pub fn received_reply(status: u16, body: &[u8]) -> (r: GeminiReply)
    ensures
        r matches GeminiReply::Received { status: s, text } && s == status && opt_chars(text)
            == spec_gemini_text(body@),
{
    GeminiReply::Received { status, text: gemini_text(body) }
}

// ---------------------------------------------------------------------------
// Comparison
// ---------------------------------------------------------------------------

/// Refusals before any work: no key, then no destination.
pub open spec fn comparison_refusal(api_key: Seq<char>, ids_len: nat) -> Option<Seq<char>> {
    if api_key.len() == 0 {
        Some("Clé API Gemini manquante dans le .env"@)
    } else if ids_len == 0 {
        Some("Aucune destination sélectionnée"@)
    } else {
        None
    }
}

/// Checks that a comparison can be asked for.
pub fn check_comparison(api_key: &str, destination_ids: &[i32]) -> (r: Result<(), String>)
    ensures
        match comparison_refusal(api_key@, destination_ids@.len()) {
            Some(e) => r matches Err(x) && x@ == e,
            None => r is Ok,
        },
{
    if api_key.is_empty() {
        return Err(owned("Clé API Gemini manquante dans le .env"));
    }
    if destination_ids.len() == 0 {
        return Err(owned("Aucune destination sélectionnée"));
    }
    Ok(())
}

/// The identifiers in decimal, in order.
pub open spec fn id_texts(ids: Seq<i32>) -> Seq<Seq<char>> {
    ids.map_values(|id: i32| decimal_int(id as int))
}

pub const QUERY_HEAD: &'static str = "SELECT university_name, location, country, description, languages, exchange_type FROM destinations WHERE id IN (";

/// The SQL text that reads the rows of the given destinations.
pub open spec fn comparison_query_text(ids: Seq<i32>) -> Seq<char> {
    QUERY_HEAD@ + join(id_texts(ids), ","@) + ")"@
}

/// The identifiers joined by commas.
pub fn join_ids(ids: &[i32]) -> (r: String)
    ensures
        r@ == join(id_texts(ids@), ","@),
{
    let n = ids.len();
    let ghost ps = id_texts(ids@);
    let mut r = String::new();
    for i in 0..n
        invariant
            n == ids@.len(),
            ps == id_texts(ids@),
            r@ == join(ps.take(i as int), ","@),
    {
        assert(ps.take(i + 1).drop_last() =~= ps.take(i as int));
        if i != 0 {
            r.append(",");
        }
        let d = decimal_i32(ids[i]);
        r.append(d.as_str());
    }
    assert(ps.take(n as int) =~= ps);
    r
}

/// The SQL text that reads the rows of the given destinations.
pub fn comparison_query(destination_ids: &[i32]) -> (r: String)
    ensures
        r@ == comparison_query_text(destination_ids@),
{
    let ids = join_ids(destination_ids);
    let mut q = owned(QUERY_HEAD);
    q.append(ids.as_str());
    q.append(")");
    q
}

/// The error reported when the rows cannot be read.
pub fn db_error_message(detail: &str) -> (r: String)
    ensures
        r@ == "Erreur DB: "@ + detail@,
{
    let mut s = owned("Erreur DB: ");
    s.append(detail);
    s
}

/// A field of a row, or "Non précisé" when it is missing.
pub open spec fn or_unspecified(o: Option<String>) -> Seq<char> {
    match o {
        Some(s) => s@,
        None => "Non précisé"@,
    }
}

fn field_text(o: &Option<String>) -> (r: &str)
    ensures
        r@ == or_unspecified(*o),
{
    match o {
        Some(s) => s.as_str(),
        None => "Non précisé",
    }
}

/// Line `i` of the numbered list of destinations.
pub open spec fn index_line(i: int, row: DestRow) -> Seq<char> {
    decimal((i + 1) as nat) + ". "@ + or_unspecified(row.university_name) + "\n"@
}

/// The numbered list of destinations, before trimming.
pub open spec fn index_lines(rows: Seq<DestRow>) -> Seq<char>
    decreases rows.len(),
{
    if rows.len() == 0 {
        seq![]
    } else {
        index_lines(rows.drop_last()) + index_line(rows.len() - 1, rows.last())
    }
}

/// The data section of destination `i`.
pub open spec fn data_section(i: int, row: DestRow) -> Seq<char> {
    "DESTINATION_"@ + decimal((i + 1) as nat) + "\nofficial_name: "@ + or_unspecified(
        row.university_name,
    ) + "\ncountry: "@ + or_unspecified(row.country) + "\nlocation: "@ + or_unspecified(
        row.location,
    ) + "\ntype: "@ + or_unspecified(row.exchange_type) + "\nlanguages: "@ + or_unspecified(
        row.languages,
    ) + "\ndescription: "@ + or_unspecified(row.description) + "\n\n"@
}

/// All data sections, before trimming.
pub open spec fn data_sections(rows: Seq<DestRow>) -> Seq<char>
    decreases rows.len(),
{
    if rows.len() == 0 {
        seq![]
    } else {
        data_sections(rows.drop_last()) + data_section(rows.len() - 1, rows.last())
    }
}

/// The criteria line of the comparison prompt.
pub open spec fn criteria_text(criteria: Seq<String>) -> Seq<char> {
    if criteria.len() == 0 {
        "Aucun critère explicite fourni"@
    } else {
        join(views(criteria), ", "@)
    }
}

pub const COMPARISON_PROMPT_HEAD: &'static str = "Tu es un conseiller Erasmus/échange universitaire premium.\nTu parles directement à un étudiant INSA Lyon en Télécommunications.\nTu réponds en français, tu t'adresses toujours à lui avec \"tu\".\n\nDestinations à comparer :\n";
pub const COMPARISON_PROMPT_DATA: &'static str = "\n\nDonnées disponibles :\n";
pub const COMPARISON_PROMPT_CRITERIA: &'static str = "\n\nCritères prioritaires de l'étudiant :\n";
pub const COMPARISON_PROMPT_TAIL: &'static str = "\n\nMission :\nFais une comparaison courte, nette, concrète, utile.\n\nRègles obligatoires :\n- Tu DOIS utiliser EXACTEMENT les noms officiels fournis ci-dessus dans le champ \"name\".\n- Tu DOIS inclure TOUTES les destinations dans \"destinationSummaries\".\n- Tu DOIS produire un classement complet dans \"ranking\" avec uniquement les noms exacts fournis.\n- Tu ne dois inventer ni université, ni coût, ni météo, ni information absente.\n- Si une information manque, dis-le de façon prudente et brève.\n- Pas de longs paragraphes.\n- Compare d'abord selon les critères donnés par l'étudiant.\n- Fais ressortir ce qui distingue vraiment chaque destination des autres.\n- Le classement doit dépendre uniquement des critères fournis.\n- Si deux destinations sont proches, conserve l'ordre le plus logique selon les critères explicitement mentionnés.\n- Base-toi d'abord sur les critères choisis, puis seulement ensuite sur les autres éléments.\n\nFormat attendu pour chaque destination :\n- shortIntro : 1 phrase courte d'impression générale\n- criteriaBreakdown : 2 à 5 entrées maximum\n- pour chaque entrée de criteriaBreakdown :\n  - criterion : nom du critère\n  - level : utilise UNIQUEMENT yes, medium ou no\n  - assessment : 1 phrase courte et concrète\n- bestFor : 1 phrase courte sur le profil d'étudiant adapté\n\nLe verdict :\n- 3 à 5 phrases maximum\n- il doit expliquer pourquoi le top 1 passe devant les autres\n- il doit mentionner explicitement les critères les plus décisifs\n- il doit être direct, utile et personnalisé.\n\nJSON Schema:\n{\n  \"type\": \"object\",\n  \"properties\": {\n    \"destinationSummaries\": {\n      \"type\": \"array\",\n      \"items\": {\n        \"type\": \"object\",\n        \"properties\": {\n          \"name\": { \"type\": \"string\" },\n          \"shortIntro\": { \"type\": \"string\" },\n          \"criteriaBreakdown\": {\n            \"type\": \"array\",\n            \"items\": {\n              \"type\": \"object\",\n              \"properties\": {\n                \"criterion\": { \"type\": \"string\" },\n                \"level\": { \"type\": \"string\" },\n                \"assessment\": { \"type\": \"string\" }\n              },\n              \"required\": [\"criterion\", \"level\", \"assessment\"]\n            }\n          },\n          \"bestFor\": { \"type\": \"string\" }\n        },\n        \"required\": [\"name\", \"shortIntro\", \"criteriaBreakdown\", \"bestFor\"]\n      }\n    },\n    \"ranking\": { \"type\": \"array\", \"items\": { \"type\": \"string\" } },\n    \"verdict\": { \"type\": \"string\" }\n  },\n  \"required\": [\"destinationSummaries\", \"ranking\", \"verdict\"]\n}";

/// The comparison prompt for the rows read and the student's criteria.
pub open spec fn comparison_prompt_text(rows: Seq<DestRow>, criteria: Seq<String>) -> Seq<char> {
    COMPARISON_PROMPT_HEAD@ + trim(index_lines(rows)) + COMPARISON_PROMPT_DATA@ + trim(
        data_sections(rows),
    ) + COMPARISON_PROMPT_CRITERIA@ + criteria_text(criteria) + COMPARISON_PROMPT_TAIL@
}

/// The criteria reach the comparison prompt: with no criterion the prompt says
/// so ("Aucun critère explicite fourni"); otherwise the line under the
/// criteria heading is the criteria joined by ", ", a single criterion
/// appears verbatim there, and every criterion occurs in the prompt.
pub proof fn lemma_comparison_prompt_criteria(rows: Seq<DestRow>, criteria: Seq<String>)
    ensures
        criteria.len() == 0 ==> has_substring(
            comparison_prompt_text(rows, criteria),
            COMPARISON_PROMPT_CRITERIA@ + "Aucun critère explicite fourni"@ + COMPARISON_PROMPT_TAIL@,
        ),
        criteria.len() > 0 ==> has_substring(
            comparison_prompt_text(rows, criteria),
            COMPARISON_PROMPT_CRITERIA@ + join(views(criteria), ", "@) + COMPARISON_PROMPT_TAIL@,
        ),
        criteria.len() == 1 ==> has_substring(
            comparison_prompt_text(rows, criteria),
            COMPARISON_PROMPT_CRITERIA@ + criteria[0]@ + COMPARISON_PROMPT_TAIL@,
        ),
        forall|i: int|
            0 <= i < criteria.len() ==> has_substring(
                comparison_prompt_text(rows, criteria),
                (#[trigger] criteria[i])@,
            ),
{
    let x = COMPARISON_PROMPT_HEAD@ + trim(index_lines(rows)) + COMPARISON_PROMPT_DATA@ + trim(
        data_sections(rows),
    );
    let ct = criteria_text(criteria);
    lemma_tail_pieces_occur(x, COMPARISON_PROMPT_CRITERIA@, ct, COMPARISON_PROMPT_TAIL@);
    if criteria.len() == 1 {
        lemma_join_shape(views(criteria), ", "@, criteria[0]@);
        assert(views(criteria) =~= seq![criteria[0]@]);
    }
    assert forall|i: int| 0 <= i < criteria.len() implies has_substring(
        comparison_prompt_text(rows, criteria),
        (#[trigger] criteria[i])@,
    ) by {
        let vs = views(criteria);
        lemma_join_contains(vs, ", "@, i);
        assert(vs[i] == criteria[i]@);
        lemma_middle_piece_occurs(
            x,
            COMPARISON_PROMPT_CRITERIA@,
            ct,
            COMPARISON_PROMPT_TAIL@,
            criteria[i]@,
        );
    }
}

fn push_index_line(s: &mut String, i: usize, row: &DestRow)
    requires
        i < usize::MAX,
    ensures
        final(s)@ == old(s)@ + index_line(i as int, *row),
{
    push_decimal(s, (i + 1) as u64);
    s.append(". ");
    s.append(field_text(&row.university_name));
    s.append("\n");
}

fn push_data_section(s: &mut String, i: usize, row: &DestRow)
    requires
        i < usize::MAX,
    ensures
        final(s)@ == old(s)@ + data_section(i as int, *row),
{
    let mut sec = owned("DESTINATION_");
    push_decimal(&mut sec, (i + 1) as u64);
    sec.append("\nofficial_name: ");
    sec.append(field_text(&row.university_name));
    sec.append("\ncountry: ");
    sec.append(field_text(&row.country));
    sec.append("\nlocation: ");
    sec.append(field_text(&row.location));
    sec.append("\ntype: ");
    sec.append(field_text(&row.exchange_type));
    sec.append("\nlanguages: ");
    sec.append(field_text(&row.languages));
    sec.append("\ndescription: ");
    sec.append(field_text(&row.description));
    sec.append("\n\n");
    s.append(sec.as_str());
}

fn criteria_line(criteria: &[String]) -> (r: String)
    ensures
        r@ == criteria_text(criteria@),
{
    if criteria.len() == 0 {
        owned("Aucun critère explicite fourni")
    } else {
        join_strings(criteria, ", ")
    }
}

/// Builds the comparison prompt.
pub fn comparison_prompt(rows: &[DestRow], criteria: &[String]) -> (r: String)
    ensures
        r@ == comparison_prompt_text(rows@, criteria@),
{
    let n = rows.len();
    let mut index = String::new();
    let mut data = String::new();
    for i in 0..n
        invariant
            n == rows@.len(),
            index@ == index_lines(rows@.take(i as int)),
            data@ == data_sections(rows@.take(i as int)),
    {
        let ghost pre = rows@.take(i as int);
        let ghost post = rows@.take(i + 1);
        assert(post.drop_last() =~= pre);
        assert(post.last() == rows@[i as int]);
        push_index_line(&mut index, i, &rows[i]);
        push_data_section(&mut data, i, &rows[i]);
    }
    assert(rows@.take(n as int) =~= rows@);
    let index_trimmed = trim_str(index.as_str());
    let data_trimmed = trim_str(data.as_str());
    let crit = criteria_line(criteria);
    let mut p = owned(COMPARISON_PROMPT_HEAD);
    p.append(index_trimmed.as_str());
    p.append(COMPARISON_PROMPT_DATA);
    p.append(data_trimmed.as_str());
    p.append(COMPARISON_PROMPT_CRITERIA);
    p.append(crit.as_str());
    p.append(COMPARISON_PROMPT_TAIL);
    p
}

pub const GEMINI_PREVIEW_URL: &'static str = "https://generativelanguage.googleapis.com/v1beta/models/gemini-2.5-flash-preview-09-2025:generateContent?key=";

/// The address of the model used by the comparison engine, with the key.
pub fn comparison_url(api_key: &str) -> (r: String)
    ensures
        r@ == GEMINI_PREVIEW_URL@ + api_key@,
{
    let mut s = owned(GEMINI_PREVIEW_URL);
    s.append(api_key);
    s
}

/// The reply counts as a quota refusal.
pub open spec fn quota_hit(raw: Seq<char>) -> bool {
    has_substring(raw, "RESOURCE_EXHAUSTED"@) || has_substring(raw, "429"@)
}

/// The view of a result of strings.
pub open spec fn result_view(r: Result<String, String>) -> Result<Seq<char>, Seq<char>> {
    match r {
        Ok(s) => Ok(s@),
        Err(e) => Err(e@),
    }
}

/// What a comparison request ends with, given the service's reply: a quota
/// refusal (status 429, or a text mentioning the quota), the text when it is
/// not empty, or a formatting error.
pub open spec fn comparison_outcome(reply: GeminiReply) -> Result<Seq<char>, Seq<char>> {
    match reply {
        GeminiReply::NetworkError => Err("Erreur réseau vers Gemini"@),
        GeminiReply::Received { status, text } => if status == 429 {
            Err("QUOTA_EXCEEDED"@)
        } else {
            let raw = match text {
                Some(t) => t@,
                None => Seq::<char>::empty(),
            };
            if quota_hit(raw) {
                Err("QUOTA_EXCEEDED"@)
            } else if raw.len() > 0 {
                Ok(raw)
            } else {
                Err("Erreur de formatage IA"@)
            }
        },
    }
}

/// Reads the service's reply to a comparison request.
pub fn comparison_result(reply: GeminiReply) -> (r: Result<String, String>)
    ensures
        result_view(r) == comparison_outcome(reply),
{
    match reply {
        GeminiReply::NetworkError => Err(owned("Erreur réseau vers Gemini")),
        GeminiReply::Received { status, text } => {
            if status == 429 {
                return Err(owned("QUOTA_EXCEEDED"));
            }
            let raw = match text {
                Some(t) => t,
                None => String::new(),
            };
            let cs = chars_of(raw.as_str());
            if contains_str(&cs, "RESOURCE_EXHAUSTED") || contains_str(&cs, "429") {
                return Err(owned("QUOTA_EXCEEDED"));
            }
            if !raw.as_str().is_empty() {
                Ok(raw)
            } else {
                Err(owned("Erreur de formatage IA"))
            }
        },
    }
}

// ---------------------------------------------------------------------------
// Follow-up questions
// ---------------------------------------------------------------------------

/// Checks that a follow-up can be asked for (a key is configured).
pub fn check_followup(api_key: &str) -> (r: Result<(), String>)
    ensures
        api_key@.len() == 0 ==> (r matches Err(e) && e@ == "Clé API manquante"@),
        api_key@.len() != 0 ==> r is Ok,
{
    if api_key.is_empty() {
        Err(owned("Clé API manquante"))
    } else {
        Ok(())
    }
}

/// How a speaker is named in the history: the student for `"user"`, the
/// assistant otherwise.
pub open spec fn speaker(role: Seq<char>) -> Seq<char> {
    if role == "user"@ {
        "Étudiant"@
    } else {
        "Assistant"@
    }
}

/// One line per turn: the speaker, a colon, the text.
pub open spec fn history_lines(h: Seq<CompareChatMessage>) -> Seq<Seq<char>> {
    Seq::new(h.len(), |i: int| speaker(h[i].role@) + ": "@ + h[i].content@)
}

/// The conversation so far, one turn per line.
pub fn followup_history(history: &[CompareChatMessage]) -> (r: String)
    ensures
        r@ == join(history_lines(history@), "\n"@),
{
    let n = history.len();
    let ghost ls = history_lines(history@);
    let mut r = String::new();
    for i in 0..n
        invariant
            n == history@.len(),
            ls == history_lines(history@),
            r@ == join(ls.take(i as int), "\n"@),
    {
        let ghost pre = ls.take(i as int);
        let ghost post = ls.take(i + 1);
        assert(post.drop_last() =~= pre);
        assert(post.last() == ls[i as int]);
        if i != 0 {
            r.append("\n");
        }
        if str_eq(history[i].role.as_str(), "user") {
            r.append("Étudiant");
        } else {
            r.append("Assistant");
        }
        r.append(": ");
        r.append(history[i].content.as_str());
    }
    assert(ls.take(n as int) =~= ls);
    r
}

pub const FOLLOWUP_HEAD: &'static str = "Tu es un conseiller Erasmus INSA TC Lyon.\n\nContexte de la comparaison en cours :\n- Destinations : ";

/// The follow-up prompt: the destinations and criteria in `Debug` form, the
/// previous verdict, the question and the history ("Aucun" when empty).
pub open spec fn followup_prompt_text(
    question: Seq<char>,
    context: CompareChatContext,
    history: Seq<CompareChatMessage>,
) -> Seq<char> {
    let h = join(history_lines(history), "\n"@);
    FOLLOWUP_HEAD@ + spec_debug_strings(views(context.destinations@)) + "\n- Critères : "@
        + spec_debug_strings(views(context.criteria@)) + "\n- Ton verdict précédent : "@
        + context.previous_verdict@ + "\n\nQuestion : "@ + question
        + "\n\nHistorique de conversation : "@ + (if h.len() == 0 {
        "Aucun"@
    } else {
        h
    })
}

/// The history reaches the follow-up prompt: with no turn the prompt ends with
/// "Historique de conversation : Aucun"; otherwise it ends with that heading
/// followed by every turn ("<speaker>: <content>") joined by newlines, ends
/// with the last turn, and holds every turn.
pub proof fn lemma_followup_prompt_history(
    question: Seq<char>,
    context: CompareChatContext,
    history: Seq<CompareChatMessage>,
)
    ensures
        history.len() == 0 ==> ends_with(
            followup_prompt_text(question, context, history),
            "\n\nHistorique de conversation : "@ + "Aucun"@,
        ),
        history.len() > 0 ==> ends_with(
            followup_prompt_text(question, context, history),
            "\n\nHistorique de conversation : "@ + join(history_lines(history), "\n"@),
        ),
        history.len() > 0 ==> ends_with(
            followup_prompt_text(question, context, history),
            speaker(history.last().role@) + ": "@ + history.last().content@,
        ),
        forall|i: int|
            0 <= i < history.len() ==> has_substring(
                followup_prompt_text(question, context, history),
                speaker((#[trigger] history[i]).role@) + ": "@ + history[i].content@,
            ),
{
    let lines = history_lines(history);
    let h = join(lines, "\n"@);
    let pre = FOLLOWUP_HEAD@ + spec_debug_strings(views(context.destinations@)) + "\n- Critères : "@
        + spec_debug_strings(views(context.criteria@)) + "\n- Ton verdict précédent : "@
        + context.previous_verdict@ + "\n\nQuestion : "@ + question;
    let label = "\n\nHistorique de conversation : "@;
    let p = followup_prompt_text(question, context, history);
    if history.len() == 0 {
        assert(lines.len() == 0);
        let tail = label + "Aucun"@;
        assert(p =~= pre + tail);
        assert(tail.subrange(0, tail.len() as int) =~= tail);
        lemma_ends_with_prefix(tail, tail, pre);
    } else {
        let last = speaker(history.last().role@) + ": "@ + history.last().content@;
        assert(lines.last() == last);
        reveal_strlit(": ");
        lemma_join_ends_with_last(lines, "\n"@);
        assert(last.len() >= 2);
        assert(h.len() > 0);
        let tail = label + h;
        assert(p =~= pre + tail);
        assert(tail.subrange(0, tail.len() as int) =~= tail);
        lemma_ends_with_prefix(tail, tail, pre);
        lemma_ends_with_prefix(h, last, label);
        lemma_ends_with_trans(p, tail, last);
    }
    assert forall|i: int| 0 <= i < history.len() implies has_substring(
        p,
        speaker((#[trigger] history[i]).role@) + ": "@ + history[i].content@,
    ) by {
        lemma_join_contains(lines, "\n"@, i);
        assert(h.len() > 0) by {
            lemma_join_ends_with_last(lines, "\n"@);
            reveal_strlit(": ");
            assert(lines.last().len() >= 2);
        }
        let e = Seq::<char>::empty();
        lemma_substring_extends(h, lines[i], pre + label, e);
        assert(pre + label + h + e =~= p);
    }
}

/// Builds the follow-up prompt.
pub fn followup_prompt(
    question: &str,
    context: &CompareChatContext,
    history: &[CompareChatMessage],
) -> (r: String)
    ensures
        r@ == followup_prompt_text(question@, *context, history@),
{
    let h = followup_history(history);
    let dests = debug_strings(context.destinations.as_slice());
    let crits = debug_strings(context.criteria.as_slice());
    let mut p = owned(FOLLOWUP_HEAD);
    p.append(dests.as_str());
    p.append("\n- Critères : ");
    p.append(crits.as_str());
    p.append("\n- Ton verdict précédent : ");
    p.append(context.previous_verdict.as_str());
    p.append("\n\nQuestion : ");
    p.append(question);
    p.append("\n\nHistorique de conversation : ");
    if h.as_str().is_empty() {
        p.append("Aucun");
    } else {
        p.append(h.as_str());
    }
    p
}

/// What a follow-up request ends with, given the service's reply.
pub open spec fn followup_outcome(reply: GeminiReply) -> Result<Seq<char>, Seq<char>> {
    match reply {
        GeminiReply::NetworkError => Err("Erreur réseau vers Gemini"@),
        GeminiReply::Received { status, text } => if status == 429 {
            Err("QUOTA_EXCEEDED"@)
        } else {
            match text {
                Some(t) => Ok(t@),
                None => Err("Erreur formatage IA"@),
            }
        },
    }
}

/// Reads the service's reply to a follow-up request.
pub fn followup_result(reply: GeminiReply) -> (r: Result<String, String>)
    ensures
        result_view(r) == followup_outcome(reply),
{
    match reply {
        GeminiReply::NetworkError => Err(owned("Erreur réseau vers Gemini")),
        GeminiReply::Received { status, text } => {
            if status == 429 {
                return Err(owned("QUOTA_EXCEEDED"));
            }
            match text {
                Some(t) => Ok(t),
                None => Err(owned("Erreur formatage IA")),
            }
        },
    }
}

} // verus!

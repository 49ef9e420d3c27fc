//! The comparison endpoints: the prompts they send, how the model's answer
//! is read, and the checks on it.
use vstd::prelude::*;

use crate::text::{
    decimal, has_substring, join, join_strings, lemma_join_contains, lemma_join_shape,
    lemma_middle_piece_occurs, lemma_substring_append, lemma_tail_pieces_occur, opt_chars,
    owned, push_decimal, str_eq, trim, trim_str, views,
};

verus! {

// ---------------------------------------------------------------------------
// Request and response shapes
// ---------------------------------------------------------------------------

/// A destination as sent by the front end for a comparison.
pub struct DestinationInput {
    pub id: i64,
    pub name: String,
    pub country: String,
    pub location: String,
    pub exchange_type: String,
    pub languages: Vec<String>,
    pub description: String,
}

/// A comparison request: the destinations and the student's criteria.
pub struct CompareRequest {
    pub destinations: Vec<DestinationInput>,
    pub criteria: Vec<String>,
}

/// One turn of the follow-up conversation.
pub struct ChatMessage {
    pub role: String,
    pub content: String,
}

/// A follow-up question about a comparison already made.
pub struct FollowupRequest {
    pub destinations: Vec<DestinationInput>,
    pub criteria: Vec<String>,
    pub ranking: Vec<String>,
    pub verdict: String,
    pub summaries: Vec<DestinationSummary>,
    pub messages: Vec<ChatMessage>,
    pub question: String,
}

/// How one destination meets one criterion.
pub struct CriterionEntry {
    pub criterion: String,
    pub level: String,
    pub assessment: String,
}

/// The summary of one destination in a comparison.
pub struct DestinationSummary {
    pub name: String,
    pub short_intro: String,
    pub criteria_breakdown: Vec<CriterionEntry>,
    pub best_for: String,
    pub analysis: String,
}

/// A full comparison.
pub struct CompareResponse {
    pub destination_summaries: Vec<DestinationSummary>,
    pub ranking: Vec<String>,
    pub verdict: String,
}

/// The answer to a follow-up question.
pub struct FollowupResponse {
    pub answer: String,
}

/// The HTTP status sent when the model cannot be used or answers badly.
pub const INTERNAL_SERVER_ERROR: u16 = 500;

// ---------------------------------------------------------------------------
// The model call
// ---------------------------------------------------------------------------

pub const FLASH_URL: &'static str = "https://generativelanguage.googleapis.com/v1beta/models/gemini-2.0-flash:generateContent?key=";

/// The address of the model, with the key.
pub fn flash_url(api_key: &str) -> (r: String)
    ensures
        r@ == FLASH_URL@ + api_key@,
{
    let mut s = owned(FLASH_URL);
    s.append(api_key);
    s
}

/// The response type asked of the model: JSON or plain text.
pub fn response_mime(json_mode: bool) -> (r: &'static str)
    ensures
        r@ == (if json_mode {
            "application/json"@
        } else {
            "text/plain"@
        }),
{
    if json_mode {
        "application/json"
    } else {
        "text/plain"
    }
}

/// The answer in a model response given as the texts of the parts of each
/// candidate: the first part of the first candidate, trimmed; empty when
/// there is none.
pub open spec fn answer_text(candidates: Seq<Seq<Seq<char>>>) -> Seq<char> {
    if candidates.len() > 0 && candidates[0].len() > 0 {
        trim(candidates[0][0])
    } else {
        trim(Seq::<char>::empty())
    }
}

/// Reads the answer out of the model's candidates.
pub fn gemini_answer(candidates: &Vec<Vec<String>>) -> (r: String)
    ensures
        r@ == answer_text(candidates@.map_values(|c: Vec<String>| views(c@))),
{
    let ghost cv = candidates@.map_values(|c: Vec<String>| views(c@));
    if candidates.len() > 0 && candidates[0].len() > 0 {
        assert(cv[0] == views(candidates@[0]@));
        assert(cv[0][0] == candidates@[0]@[0]@);
        trim_str(candidates[0][0].as_str())
    } else {
        let empty = String::new();
        trim_str(empty.as_str())
    }
}

/// The JSON text the server sends for a model answer: the text parsed by
/// `serde_json::from_str::<serde_json::Value>` and written back by
/// `serde_json`'s compact serializer; `None` when the text is not JSON.
/// A function of the text alone.
pub uninterp spec fn spec_json_rendered(text: Seq<char>) -> Option<Seq<char>>;

/// Trusted: `serde_json::from_str::<serde_json::Value>` followed by the
/// value's `to_string` (compact JSON, as `axum::Json` writes it). Claims only
/// that the result is `spec_json_rendered` of the text; the JSON grammar and
/// the serializer's layout are not restated.
#[verifier::external_body]
fn render_json(text: &str) -> (r: Option<String>)
    ensures
        opt_chars(r) == spec_json_rendered(text@),
{
    serde_json::from_str::<serde_json::Value>(text).ok().map(|v| v.to_string())
}

/// The body of a comparison answer: the model's text parsed as JSON and sent
/// back as JSON. When the model could not be reached (`None`) or its text is
/// not JSON, the request fails with status 500.
pub fn compare_answer(model_text: Option<String>) -> (r: Result<String, u16>)
    ensures
        match model_text {
            Some(t) => match spec_json_rendered(t@) {
                Some(body) => r matches Ok(b) && b@ == body,
                None => r == Err::<String, u16>(INTERNAL_SERVER_ERROR),
            },
            None => r == Err::<String, u16>(INTERNAL_SERVER_ERROR),
        },
{
    match model_text {
        None => Err(INTERNAL_SERVER_ERROR),
        Some(raw) => match render_json(raw.as_str()) {
            Some(body) => Ok(body),
            None => Err(INTERNAL_SERVER_ERROR),
        },
    }
}

/// The answer to a follow-up: the model's text, or status 500 when the model
/// could not be reached.
pub fn followup_answer(model_text: Option<String>) -> (r: Result<FollowupResponse, u16>)
    ensures
        match model_text {
            Some(t) => r matches Ok(resp) && resp.answer@ == t@,
            None => r == Err::<FollowupResponse, u16>(INTERNAL_SERVER_ERROR),
        },
{
    match model_text {
        Some(answer) => Ok(FollowupResponse { answer }),
        None => Err(INTERNAL_SERVER_ERROR),
    }
}

// ---------------------------------------------------------------------------
// Comparison prompt
// ---------------------------------------------------------------------------

/// Line `i` of the numbered list of destinations.
pub open spec fn numbered_name(i: int, d: DestinationInput) -> Seq<char> {
    decimal((i + 1) as nat) + ". "@ + d.name@
}

/// The data section of destination `i`.
pub open spec fn destination_data(i: int, d: DestinationInput) -> Seq<char> {
    "DESTINATION_"@ + decimal((i + 1) as nat) + "\nofficial_name: "@ + d.name@ + "\ncountry: "@
        + d.country@ + "\nlocation: "@ + d.location@ + "\ntype: "@ + d.exchange_type@
        + "\nlanguages: "@ + join(views(d.languages@), ", "@) + "\ndescription: "@
        + d.description@
}

pub open spec fn numbered_names(ds: Seq<DestinationInput>) -> Seq<Seq<char>> {
    Seq::new(ds.len(), |i: int| numbered_name(i, ds[i]))
}

pub open spec fn destination_datas(ds: Seq<DestinationInput>) -> Seq<Seq<char>> {
    Seq::new(ds.len(), |i: int| destination_data(i, ds[i]))
}

pub const COMPARE_HEAD: &'static str = "Tu es un conseiller Erasmus/échange universitaire premium.\nTu parles directement à un étudiant INSA Lyon en Télécommunications.\nTu réponds en français, tu t'adresses toujours à lui avec \"tu\".\n\nDestinations à comparer :\n";
pub const COMPARE_DATA: &'static str = "\n\nDonnées disponibles :\n";
pub const COMPARE_CRITERIA: &'static str = "\n\nCritères prioritaires de l'étudiant :\n";
pub const COMPARE_TAIL: &'static str = "\n\nMission :\nFais une comparaison courte, nette, concrète, utile.\n\nRègles obligatoires :\n- Tu DOIS utiliser EXACTEMENT les noms officiels fournis ci-dessus dans le champ \"name\".\n- Tu DOIS inclure TOUTES les destinations dans \"destinationSummaries\".\n- Tu DOIS produire un classement complet dans \"ranking\" avec uniquement les noms exacts fournis.\n- Tu ne dois inventer ni université, ni coût, ni météo, ni information absente.\n- Si une information manque, dis-le de façon prudente et brève.\n- Compare d'abord selon les critères donnés par l'étudiant.\n- Fais ressortir ce qui distingue vraiment chaque destination des autres.\n\nFormat JSON attendu :\n{\n  \"destinationSummaries\": [\n    {\n      \"name\": \"nom exact\",\n      \"shortIntro\": \"1 phrase d'impression générale\",\n      \"criteriaBreakdown\": [\n        {\"criterion\": \"nom critère\", \"level\": \"yes|medium|no\", \"assessment\": \"1 phrase courte\"}\n      ],\n      \"bestFor\": \"1 phrase sur le profil adapté\"\n    }\n  ],\n  \"ranking\": [\"nom exact 1\", \"nom exact 2\"],\n  \"verdict\": \"3 à 5 phrases expliquant le classement\"\n}";

/// The criteria of a comparison, or a note that none was given.
pub open spec fn compare_criteria(criteria: Seq<String>) -> Seq<char> {
    if criteria.len() == 0 {
        "Aucun critère explicite fourni"@
    } else {
        join(views(criteria), ", "@)
    }
}

/// The prompt of a comparison request.
pub open spec fn compare_prompt_text(req: CompareRequest) -> Seq<char> {
    COMPARE_HEAD@ + join(numbered_names(req.destinations@), "\n"@) + COMPARE_DATA@ + join(
        destination_datas(req.destinations@),
        "\n\n"@,
    ) + COMPARE_CRITERIA@ + compare_criteria(req.criteria@) + COMPARE_TAIL@
}

/// The criteria reach the comparison prompt: with none the prompt says so
/// ("Aucun critère explicite fourni"); otherwise the line under the criteria
/// heading is the criteria joined by ", ", a single criterion appears there
/// verbatim, and every criterion occurs in the prompt.
pub proof fn lemma_compare_prompt_criteria(req: CompareRequest)
    ensures
        req.criteria@.len() == 0 ==> has_substring(
            compare_prompt_text(req),
            COMPARE_CRITERIA@ + "Aucun critère explicite fourni"@ + COMPARE_TAIL@,
        ),
        req.criteria@.len() > 0 ==> has_substring(
            compare_prompt_text(req),
            COMPARE_CRITERIA@ + join(views(req.criteria@), ", "@) + COMPARE_TAIL@,
        ),
        req.criteria@.len() == 1 ==> has_substring(
            compare_prompt_text(req),
            COMPARE_CRITERIA@ + req.criteria@[0]@ + COMPARE_TAIL@,
        ),
        forall|i: int|
            0 <= i < req.criteria@.len() ==> has_substring(
                compare_prompt_text(req),
                (#[trigger] req.criteria@[i])@,
            ),
{
    let c = req.criteria@;
    let x = COMPARE_HEAD@ + join(numbered_names(req.destinations@), "\n"@) + COMPARE_DATA@ + join(
        destination_datas(req.destinations@),
        "\n\n"@,
    );
    let ct = compare_criteria(c);
    lemma_tail_pieces_occur(x, COMPARE_CRITERIA@, ct, COMPARE_TAIL@);
    if c.len() == 1 {
        lemma_join_shape(views(c), ", "@, c[0]@);
        assert(views(c) =~= seq![c[0]@]);
    }
    assert forall|i: int| 0 <= i < c.len() implies has_substring(
        compare_prompt_text(req),
        (#[trigger] c[i])@,
    ) by {
        lemma_join_contains(views(c), ", "@, i);
        assert(views(c)[i] == c[i]@);
        lemma_middle_piece_occurs(x, COMPARE_CRITERIA@, ct, COMPARE_TAIL@, c[i]@);
    }
}

fn destination_data_exec(i: usize, d: &DestinationInput) -> (r: String)
    requires
        i < usize::MAX,
    ensures
        r@ == destination_data(i as int, *d),
{
    let langs = join_strings(d.languages.as_slice(), ", ");
    let mut s = owned("DESTINATION_");
    push_decimal(&mut s, (i + 1) as u64);
    s.append("\nofficial_name: ");
    s.append(d.name.as_str());
    s.append("\ncountry: ");
    s.append(d.country.as_str());
    s.append("\nlocation: ");
    s.append(d.location.as_str());
    s.append("\ntype: ");
    s.append(d.exchange_type.as_str());
    s.append("\nlanguages: ");
    s.append(langs.as_str());
    s.append("\ndescription: ");
    s.append(d.description.as_str());
    s
}

/// Builds the prompt of a comparison request.
pub fn compare_prompt(req: &CompareRequest) -> (r: String)
    ensures
        r@ == compare_prompt_text(*req),
{
    let ds = &req.destinations;
    let n = ds.len();
    let ghost names = numbered_names(ds@);
    let ghost datas = destination_datas(ds@);
    let mut index = String::new();
    let mut data = String::new();
    for i in 0..n
        invariant
            n == ds@.len(),
            names == numbered_names(ds@),
            datas == destination_datas(ds@),
            index@ == join(names.take(i as int), "\n"@),
            data@ == join(datas.take(i as int), "\n\n"@),
    {
        assert(names.take(i + 1).drop_last() =~= names.take(i as int));
        assert(datas.take(i + 1).drop_last() =~= datas.take(i as int));
        assert(names.take(i + 1).last() == numbered_name(i as int, ds@[i as int]));
        assert(datas.take(i + 1).last() == destination_data(i as int, ds@[i as int]));
        if i != 0 {
            index.append("\n");
            data.append("\n\n");
        }
        push_decimal(&mut index, (i + 1) as u64);
        index.append(". ");
        index.append(ds[i].name.as_str());
        let sec = destination_data_exec(i, &ds[i]);
        data.append(sec.as_str());
    }
    assert(names.take(n as int) =~= names);
    assert(datas.take(n as int) =~= datas);
    let crit = if req.criteria.len() == 0 {
        owned("Aucun critère explicite fourni")
    } else {
        join_strings(req.criteria.as_slice(), ", ")
    };
    let mut p = owned(COMPARE_HEAD);
    p.append(index.as_str());
    p.append(COMPARE_DATA);
    p.append(data.as_str());
    p.append(COMPARE_CRITERIA);
    p.append(crit.as_str());
    p.append(COMPARE_TAIL);
    p
}

// ---------------------------------------------------------------------------
// Follow-up prompt
// ---------------------------------------------------------------------------

/// One line describing a compared destination.
pub open spec fn destination_line(d: DestinationInput) -> Seq<char> {
    "- "@ + d.name@ + " | pays: "@ + d.country@ + " | lieu: "@ + d.location@ + " | type: "@
        + d.exchange_type@ + " | langues: "@ + join(views(d.languages@), ", "@)
        + " | description: "@ + d.description@
}

/// The current analysis of one destination.
pub open spec fn summary_text(s: DestinationSummary) -> Seq<char> {
    s.name@ + ":\n"@ + s.analysis@
}

/// How a speaker is named: the student for `"user"`, the assistant otherwise.
pub open spec fn speaker_name(role: Seq<char>) -> Seq<char> {
    if role == "user"@ {
        "Étudiant"@
    } else {
        "Assistant"@
    }
}

/// One turn of the conversation.
pub open spec fn turn_text(m: ChatMessage) -> Seq<char> {
    speaker_name(m.role@) + ": "@ + m.content@
}

pub open spec fn destination_lines(ds: Seq<DestinationInput>) -> Seq<Seq<char>> {
    Seq::new(ds.len(), |i: int| destination_line(ds[i]))
}

pub open spec fn summary_texts(ss: Seq<DestinationSummary>) -> Seq<Seq<char>> {
    Seq::new(ss.len(), |i: int| summary_text(ss[i]))
}

pub open spec fn turn_texts(ms: Seq<ChatMessage>) -> Seq<Seq<char>> {
    Seq::new(ms.len(), |i: int| turn_text(ms[i]))
}

/// The criteria of a follow-up, or a note that none was chosen.
pub open spec fn followup_criteria(criteria: Seq<String>) -> Seq<char> {
    if criteria.len() == 0 {
        "Aucun critère explicite"@
    } else {
        join(views(criteria), ", "@)
    }
}

pub const FOLLOWUP_HEAD: &'static str = "Tu es un conseiller Erasmus/échange très clair, très utile.\nTu parles directement à un étudiant INSA TC.\nTu réponds uniquement sur la comparaison en cours.\nTu tutoies toujours l'étudiant. Tu écris sans markdown.\nTu n'inventes pas d'informations absentes. Tu restes précis, comparatif et bref.\n\nDestinations comparées :\n";
pub const FOLLOWUP_CRITERIA: &'static str = "\n\nCritères choisis :\n";
pub const FOLLOWUP_RANKING: &'static str = "\n\nClassement actuel :\n";
pub const FOLLOWUP_SUMMARIES: &'static str = "\n\nSynthèse actuelle :\n";
pub const FOLLOWUP_CONCLUSION: &'static str = "\n\nVerdict actuel :\n";
pub const FOLLOWUP_HISTORY: &'static str = "\n\nHistorique :\n";
pub const FOLLOWUP_QUESTION: &'static str = "\n\nNouvelle question de l'étudiant :\n";
pub const FOLLOWUP_TAIL: &'static str = "\n\nConsignes : réponds en français, tutoie, 3 à 6 phrases, direct, comparatif, pas de markdown.";

/// The prompt of a follow-up request.
pub open spec fn followup_prompt_text(req: FollowupRequest) -> Seq<char> {
    let history = join(turn_texts(req.messages@), "\n"@);
    FOLLOWUP_HEAD@ + join(destination_lines(req.destinations@), "\n"@) + FOLLOWUP_CRITERIA@
        + followup_criteria(req.criteria@) + FOLLOWUP_RANKING@ + join(views(req.ranking@), " > "@)
        + FOLLOWUP_SUMMARIES@ + join(summary_texts(req.summaries@), "\n\n"@) + FOLLOWUP_CONCLUSION@
        + req.verdict@ + FOLLOWUP_HISTORY@ + (if history.len() == 0 {
        "Aucun"@
    } else {
        history
    }) + FOLLOWUP_QUESTION@ + req.question@ + FOLLOWUP_TAIL@
}

/// The history reaches the follow-up prompt: with no turn the section under
/// the history heading is "Aucun"; otherwise it is every turn
/// ("<speaker>: <content>") joined by newlines, and every turn occurs in the
/// prompt.
pub proof fn lemma_followup_prompt_history(req: FollowupRequest)
    ensures
        req.messages@.len() == 0 ==> has_substring(
            followup_prompt_text(req),
            FOLLOWUP_HISTORY@ + "Aucun"@ + FOLLOWUP_QUESTION@,
        ),
        req.messages@.len() > 0 ==> has_substring(
            followup_prompt_text(req),
            FOLLOWUP_HISTORY@ + join(turn_texts(req.messages@), "\n"@) + FOLLOWUP_QUESTION@,
        ),
        forall|i: int|
            0 <= i < req.messages@.len() ==> has_substring(
                followup_prompt_text(req),
                speaker_name((#[trigger] req.messages@[i]).role@) + ": "@
                    + req.messages@[i].content@,
            ),
{
    let ms = req.messages@;
    let ts = turn_texts(ms);
    let h = join(ts, "\n"@);
    let pre = FOLLOWUP_HEAD@ + join(destination_lines(req.destinations@), "\n"@)
        + FOLLOWUP_CRITERIA@ + followup_criteria(req.criteria@) + FOLLOWUP_RANKING@ + join(
        views(req.ranking@),
        " > "@,
    ) + FOLLOWUP_SUMMARIES@ + join(summary_texts(req.summaries@), "\n\n"@)
        + FOLLOWUP_CONCLUSION@ + req.verdict@;
    let sec = if h.len() == 0 {
        "Aucun"@
    } else {
        h
    };
    if ms.len() > 0 {
        reveal_strlit(": ");
        assert(ts.last().len() >= 2);
        assert(h.len() > 0) by {
            if ts.len() > 1 {
                assert(h == join(ts.drop_last(), "\n"@) + "\n"@ + ts.last());
            }
        }
    } else {
        assert(ts.len() == 0);
    }
    let s1 = pre + FOLLOWUP_HISTORY@ + sec + FOLLOWUP_QUESTION@;
    let s2 = s1 + req.question@;
    lemma_tail_pieces_occur(pre, FOLLOWUP_HISTORY@, sec, FOLLOWUP_QUESTION@);
    lemma_substring_append(s1, FOLLOWUP_HISTORY@ + sec + FOLLOWUP_QUESTION@, req.question@);
    lemma_substring_append(s2, FOLLOWUP_HISTORY@ + sec + FOLLOWUP_QUESTION@, FOLLOWUP_TAIL@);
    assert forall|i: int| 0 <= i < ms.len() implies has_substring(
        followup_prompt_text(req),
        speaker_name((#[trigger] ms[i]).role@) + ": "@ + ms[i].content@,
    ) by {
        let t = speaker_name(ms[i].role@) + ": "@ + ms[i].content@;
        lemma_join_contains(ts, "\n"@, i);
        assert(ts[i] == t);
        lemma_middle_piece_occurs(pre, FOLLOWUP_HISTORY@, h, FOLLOWUP_QUESTION@, t);
        lemma_substring_append(s1, t, req.question@);
        lemma_substring_append(s2, t, FOLLOWUP_TAIL@);
    }
}

fn destination_line_exec(d: &DestinationInput) -> (r: String)
    ensures
        r@ == destination_line(*d),
{
    let langs = join_strings(d.languages.as_slice(), ", ");
    let mut s = owned("- ");
    s.append(d.name.as_str());
    s.append(" | pays: ");
    s.append(d.country.as_str());
    s.append(" | lieu: ");
    s.append(d.location.as_str());
    s.append(" | type: ");
    s.append(d.exchange_type.as_str());
    s.append(" | langues: ");
    s.append(langs.as_str());
    s.append(" | description: ");
    s.append(d.description.as_str());
    s
}

fn destinations_block(ds: &Vec<DestinationInput>) -> (r: String)
    ensures
        r@ == join(destination_lines(ds@), "\n"@),
{
    let n = ds.len();
    let ghost ls = destination_lines(ds@);
    let mut r = String::new();
    for i in 0..n
        invariant
            n == ds@.len(),
            ls == destination_lines(ds@),
            r@ == join(ls.take(i as int), "\n"@),
    {
        assert(ls.take(i + 1).drop_last() =~= ls.take(i as int));
        assert(ls.take(i + 1).last() == destination_line(ds@[i as int]));
        if i != 0 {
            r.append("\n");
        }
        let line = destination_line_exec(&ds[i]);
        r.append(line.as_str());
    }
    assert(ls.take(n as int) =~= ls);
    r
}

fn summaries_block(ss: &Vec<DestinationSummary>) -> (r: String)
    ensures
        r@ == join(summary_texts(ss@), "\n\n"@),
{
    let n = ss.len();
    let ghost ls = summary_texts(ss@);
    let mut r = String::new();
    for i in 0..n
        invariant
            n == ss@.len(),
            ls == summary_texts(ss@),
            r@ == join(ls.take(i as int), "\n\n"@),
    {
        assert(ls.take(i + 1).drop_last() =~= ls.take(i as int));
        assert(ls.take(i + 1).last() == summary_text(ss@[i as int]));
        if i != 0 {
            r.append("\n\n");
        }
        r.append(ss[i].name.as_str());
        r.append(":\n");
        r.append(ss[i].analysis.as_str());
    }
    assert(ls.take(n as int) =~= ls);
    r
}

fn history_block(ms: &Vec<ChatMessage>) -> (r: String)
    ensures
        r@ == join(turn_texts(ms@), "\n"@),
{
    let n = ms.len();
    let ghost ls = turn_texts(ms@);
    let mut r = String::new();
    for i in 0..n
        invariant
            n == ms@.len(),
            ls == turn_texts(ms@),
            r@ == join(ls.take(i as int), "\n"@),
    {
        assert(ls.take(i + 1).drop_last() =~= ls.take(i as int));
        assert(ls.take(i + 1).last() == turn_text(ms@[i as int]));
        if i != 0 {
            r.append("\n");
        }
        if str_eq(ms[i].role.as_str(), "user") {
            r.append("Étudiant");
        } else {
            r.append("Assistant");
        }
        r.append(": ");
        r.append(ms[i].content.as_str());
    }
    assert(ls.take(n as int) =~= ls);
    r
}

/// Builds the prompt of a follow-up request.
pub fn followup_prompt(req: &FollowupRequest) -> (r: String)
    ensures
        r@ == followup_prompt_text(*req),
{
    let dest = destinations_block(&req.destinations);
    let summaries = summaries_block(&req.summaries);
    let history = history_block(&req.messages);
    let crit = if req.criteria.len() == 0 {
        owned("Aucun critère explicite")
    } else {
        join_strings(req.criteria.as_slice(), ", ")
    };
    let ranking = join_strings(req.ranking.as_slice(), " > ");
    let mut p = owned(FOLLOWUP_HEAD);
    p.append(dest.as_str());
    p.append(FOLLOWUP_CRITERIA);
    p.append(crit.as_str());
    p.append(FOLLOWUP_RANKING);
    p.append(ranking.as_str());
    p.append(FOLLOWUP_SUMMARIES);
    p.append(summaries.as_str());
    p.append(FOLLOWUP_CONCLUSION);
    p.append(req.verdict.as_str());
    p.append(FOLLOWUP_HISTORY);
    if history.as_str().is_empty() {
        p.append("Aucun");
    } else {
        p.append(history.as_str());
    }
    p.append(FOLLOWUP_QUESTION);
    p.append(req.question.as_str());
    p.append(FOLLOWUP_TAIL);
    p
}

} // verus!

//! The orientation quiz: the prompts sent to the model and the fallback
//! recommendation used when the model cannot answer.
use vstd::prelude::*;

use crate::text::{
    debug_strings, decimal, join, owned, push_decimal, spec_debug_strings, views,
};

verus! {

/// The student's answers to the quiz questions, in order.
pub struct QuizRequest {
    pub answers: Vec<String>,
}

/// One recommended destination.
pub struct Recommendation {
    pub nom: String,
    pub pays: String,
    pub avis: String,
    pub points_forts: Vec<String>,
}

/// The recommendations sent back.
pub struct QuizResponse {
    pub recommendations: Vec<Recommendation>,
}

/// The system prompt of the quiz model.
pub const QUIZ_SYSTEM_PROMPT: &'static str = "\nTu es un assistant d'orientation pour les étudiants TC de l'INSA Lyon.\nTa tâche est de proposer un TOP 3 de destinations d'échange adaptées au profil de l'étudiant.\n\nTu DOIS répondre EXCLUSIVEMENT au format JSON suivant, sans texte autour :\n{\n  \"recommendations\": [\n    {\n      \"nom\": \"Nom court de la destination (ex: KIT)\",\n      \"pays\": \"Pays (ex: Allemagne)\",\n      \"avis\": \"Court paragraphe en français expliquant pourquoi cette destination est adaptée\",\n      \"points_forts\": [\n        \"Point fort 1\",\n        \"Point fort 2\",\n        \"Point fort 3\"\n      ]\n    }\n  ]\n}\n\n- Toujours renvoyer entre 1 et 3 recommandations.\n- Le JSON doit être valide.\n";

/// The system prompt of the quiz model.
pub fn quiz_system_prompt() -> (r: &'static str)
    ensures
        r@ == QUIZ_SYSTEM_PROMPT@,
{
    QUIZ_SYSTEM_PROMPT
}

/// Answer `i` of the quiz, numbered from 1.
pub open spec fn numbered_answer(i: int, answer: Seq<char>) -> Seq<char> {
    "Q"@ + decimal((i + 1) as nat) + ": "@ + answer
}

pub open spec fn numbered_answers(answers: Seq<String>) -> Seq<Seq<char>> {
    Seq::new(answers.len(), |i: int| numbered_answer(i, answers[i]@))
}

/// The answers numbered and separated by commas ("Q1: .., Q2: ..").
pub open spec fn answers_text(answers: Seq<String>) -> Seq<char> {
    join(numbered_answers(answers), ", "@)
}

/// Numbers the answers and joins them with commas.
pub fn quiz_answers_text(answers: &[String]) -> (r: String)
    ensures
        r@ == answers_text(answers@),
{
    let n = answers.len();
    let ghost ls = numbered_answers(answers@);
    let mut r = String::new();
    for i in 0..n
        invariant
            n == answers@.len(),
            ls == numbered_answers(answers@),
            r@ == join(ls.take(i as int), ", "@),
    {
        assert(ls.take(i + 1).drop_last() =~= ls.take(i as int));
        assert(ls.take(i + 1).last() == numbered_answer(i as int, answers@[i as int]@));
        if i != 0 {
            r.append(", ");
        }
        r.append("Q");
        push_decimal(&mut r, (i + 1) as u64);
        r.append(": ");
        r.append(answers[i].as_str());
    }
    assert(ls.take(n as int) =~= ls);
    r
}

/// The user prompt: the numbered answers and the request for a top 3.
pub open spec fn user_prompt_text(answers: Seq<String>) -> Seq<char> {
    "Voici les réponses de l'étudiant au quiz : ["@ + answers_text(answers)
        + "]. Propose-lui un TOP 3 de destinations."@
}

/// Builds the user prompt.
pub fn quiz_user_prompt(answers: &[String]) -> (r: String)
    ensures
        r@ == user_prompt_text(answers@),
{
    let text = quiz_answers_text(answers);
    let mut p = owned("Voici les réponses de l'étudiant au quiz : [");
    p.append(text.as_str());
    p.append("]. Propose-lui un TOP 3 de destinations.");
    p
}

/// The fallback recommendation holds exactly one destination, KIT in
/// Germany, with an opinion quoting the answers in `Debug` form and three
/// fixed strengths.
pub open spec fn is_fallback_for(r: Seq<Recommendation>, answers: Seq<String>) -> bool {
    &&& r.len() == 1
    &&& r[0].nom@ == "KIT"@
    &&& r[0].pays@ == "Allemagne"@
    &&& r[0].avis@ == "Basé sur tes réponses ("@ + spec_debug_strings(views(answers))
        + "), KIT semble un excellent match."@
    &&& views(r[0].points_forts@) == seq![
        "Excellente réputation en ingénierie"@,
        "Nombreux cours en anglais"@,
        "Fort environnement de recherche"@,
    ]
}

/// The recommendation given when the model cannot be used.
pub fn fallback_recommendations(answers: &[String]) -> (r: Vec<Recommendation>)
    ensures
        is_fallback_for(r@, answers@),
{
    let quoted = debug_strings(answers);
    let mut avis = owned("Basé sur tes réponses (");
    avis.append(quoted.as_str());
    avis.append("), KIT semble un excellent match.");
    let mut points: Vec<String> = Vec::new();
    points.push(owned("Excellente réputation en ingénierie"));
    points.push(owned("Nombreux cours en anglais"));
    points.push(owned("Fort environnement de recherche"));
    assert(views(points@) =~= seq![
        "Excellente réputation en ingénierie"@,
        "Nombreux cours en anglais"@,
        "Fort environnement de recherche"@,
    ]);
    let mut r: Vec<Recommendation> = Vec::new();
    r.push(Recommendation { nom: owned("KIT"), pays: owned("Allemagne"), avis, points_forts: points });
    r
}

/// The content of the first choice of a completion; `None` when the
/// completion holds no choice (the quiz call then fails).
pub fn first_choice(choices: &[String]) -> (r: Option<String>)
    ensures
        match r {
            Some(c) => choices@.len() > 0 && c@ == choices@[0]@,
            None => choices@.len() == 0,
        },
{
    if choices.len() == 0 {
        None
    } else {
        Some(choices[0].clone())
    }
}

/// The quiz answer: the model's recommendations when it gave some (`Some`),
/// the fallback otherwise (no key configured, or the call or its parsing failed).
pub fn quiz_response(answers: &[String], model: Option<QuizResponse>) -> (r: QuizResponse)
    ensures
        match model {
            Some(m) => r == m,
            None => is_fallback_for(r.recommendations@, answers@),
        },
{
    match model {
        Some(m) => m,
        None => QuizResponse { recommendations: fallback_recommendations(answers) },
    }
}

} // verus!

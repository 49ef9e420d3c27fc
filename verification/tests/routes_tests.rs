use tcexchange_backend::db::database_url;
use tcexchange_backend::routes::auth::{login, LoginRequest};
use tcexchange_backend::routes::compare::{
    compare_answer, compare_prompt, flash_url, followup_answer, followup_prompt, gemini_answer,
    response_mime, ChatMessage, CompareRequest, CriterionEntry, DestinationInput,
    DestinationSummary, FollowupRequest,
};
use tcexchange_backend::routes::quiz::{
    fallback_recommendations, first_choice, quiz_answers_text, quiz_response, quiz_system_prompt,
    quiz_user_prompt, QuizResponse, Recommendation,
};
use tcexchange_backend::seed::languages_column;

fn input(name: &str, langs: &[&str]) -> DestinationInput {
    DestinationInput {
        id: 1,
        name: name.to_string(),
        country: "Allemagne".to_string(),
        location: "Karlsruhe".to_string(),
        exchange_type: "Erasmus+".to_string(),
        languages: langs.iter().map(|s| s.to_string()).collect(),
        description: "Recherche".to_string(),
    }
}

fn summary(name: &str, analysis: &str) -> DestinationSummary {
    DestinationSummary {
        name: name.to_string(),
        short_intro: String::new(),
        criteria_breakdown: vec![CriterionEntry {
            criterion: "coût".to_string(),
            level: "medium".to_string(),
            assessment: "moyen".to_string(),
        }],
        best_for: String::new(),
        analysis: analysis.to_string(),
    }
}

/// The comparison prompt rendered with `format!`, field by field.
fn expected_compare_prompt(payload: &CompareRequest) -> String {
    let dest_index_block = payload
        .destinations
        .iter()
        .enumerate()
        .map(|(i, d)| format!("{}. {}", i + 1, d.name))
        .collect::<Vec<_>>()
        .join("\n");
    let dest_data_block = payload
        .destinations
        .iter()
        .enumerate()
        .map(|(i, d)| {
            format!(
                "DESTINATION_{}\nofficial_name: {}\ncountry: {}\nlocation: {}\ntype: {}\nlanguages: {}\ndescription: {}",
                i + 1,
                d.name,
                d.country,
                d.location,
                d.exchange_type,
                d.languages.join(", "),
                d.description
            )
        })
        .collect::<Vec<_>>()
        .join("\n\n");
    let criteria_block = if payload.criteria.is_empty() {
        "Aucun critère explicite fourni".to_string()
    } else {
        payload.criteria.join(", ")
    };
    let prompt = format!(
        r#"Tu es un conseiller Erasmus/échange universitaire premium.
Tu parles directement à un étudiant INSA Lyon en Télécommunications.
Tu réponds en français, tu t'adresses toujours à lui avec "tu".

Destinations à comparer :
{dest_index_block}

Données disponibles :
{dest_data_block}

Critères prioritaires de l'étudiant :
{criteria_block}

Mission :
Fais une comparaison courte, nette, concrète, utile.

Règles obligatoires :
- Tu DOIS utiliser EXACTEMENT les noms officiels fournis ci-dessus dans le champ "name".
- Tu DOIS inclure TOUTES les destinations dans "destinationSummaries".
- Tu DOIS produire un classement complet dans "ranking" avec uniquement les noms exacts fournis.
- Tu ne dois inventer ni université, ni coût, ni météo, ni information absente.
- Si une information manque, dis-le de façon prudente et brève.
- Compare d'abord selon les critères donnés par l'étudiant.
- Fais ressortir ce qui distingue vraiment chaque destination des autres.

Format JSON attendu :
{{
  "destinationSummaries": [
    {{
      "name": "nom exact",
      "shortIntro": "1 phrase d'impression générale",
      "criteriaBreakdown": [
        {{"criterion": "nom critère", "level": "yes|medium|no", "assessment": "1 phrase courte"}}
      ],
      "bestFor": "1 phrase sur le profil adapté"
    }}
  ],
  "ranking": ["nom exact 1", "nom exact 2"],
  "verdict": "3 à 5 phrases expliquant le classement"
}}"#
    );
    prompt
}

/// The follow-up prompt rendered with `format!`, field by field.
fn expected_followup_prompt(payload: &FollowupRequest) -> String {
    let dest_block = payload
        .destinations
        .iter()
        .map(|d| {
            format!(
                "- {} | pays: {} | lieu: {} | type: {} | langues: {} | description: {}",
                d.name,
                d.country,
                d.location,
                d.exchange_type,
                d.languages.join(", "),
                d.description
            )
        })
        .collect::<Vec<_>>()
        .join("\n");
    let summaries_block = payload
        .summaries
        .iter()
        .map(|s| format!("{}:\n{}", s.name, s.analysis))
        .collect::<Vec<_>>()
        .join("\n\n");
    let history_block = payload
        .messages
        .iter()
        .map(|m| {
            let role = if m.role == "user" { "Étudiant" } else { "Assistant" };
            format!("{}: {}", role, m.content)
        })
        .collect::<Vec<_>>()
        .join("\n");
    let criteria_block = if payload.criteria.is_empty() {
        "Aucun critère explicite".to_string()
    } else {
        payload.criteria.join(", ")
    };
    let prompt = format!(
        r#"Tu es un conseiller Erasmus/échange très clair, très utile.
Tu parles directement à un étudiant INSA TC.
Tu réponds uniquement sur la comparaison en cours.
Tu tutoies toujours l'étudiant. Tu écris sans markdown.
Tu n'inventes pas d'informations absentes. Tu restes précis, comparatif et bref.

Destinations comparées :
{dest_block}

Critères choisis :
{criteria_block}

Classement actuel :
{ranking}

Synthèse actuelle :
{summaries_block}

Verdict actuel :
{verdict}

Historique :
{history}

Nouvelle question de l'étudiant :
{question}

Consignes : réponds en français, tutoie, 3 à 6 phrases, direct, comparatif, pas de markdown."#,
        ranking = payload.ranking.join(" > "),
        verdict = payload.verdict,
        history = if history_block.is_empty() { "Aucun".to_string() } else { history_block },
        question = payload.question,
    );
    prompt
}

#[test]
fn compare_prompt_renders_every_destination() {
    let req = CompareRequest {
        destinations: vec![input("KIT", &["Allemand", "Anglais"]), input("MIT", &[])],
        criteria: vec!["coût".to_string(), "langue".to_string()],
    };
    assert_eq!(compare_prompt(&req), expected_compare_prompt(&req));
    let empty = CompareRequest { destinations: vec![], criteria: vec![] };
    assert_eq!(compare_prompt(&empty), expected_compare_prompt(&empty));
    assert!(compare_prompt(&req).contains("1. KIT\n2. MIT\n\nDonnées"));
}

#[test]
fn followup_prompt_renders_everything() {
    let req = FollowupRequest {
        destinations: vec![input("KIT", &["Allemand"]), input("MIT", &["Anglais", "Espagnol"])],
        criteria: vec![],
        ranking: vec!["KIT".to_string(), "MIT".to_string()],
        verdict: "KIT devant.".to_string(),
        summaries: vec![summary("KIT", "solide"), summary("MIT", "cher")],
        messages: vec![
            ChatMessage { role: "user".to_string(), content: "Et le coût ?".to_string() },
            ChatMessage { role: "assistant".to_string(), content: "MIT est cher.".to_string() },
        ],
        question: "Lequel choisir ?".to_string(),
    };
    assert_eq!(followup_prompt(&req), expected_followup_prompt(&req));
    let quiet = FollowupRequest { messages: vec![], criteria: vec!["x".to_string()], ..req };
    assert_eq!(followup_prompt(&quiet), expected_followup_prompt(&quiet));
    assert!(followup_prompt(&quiet).contains("Historique :\nAucun\n"));
    assert!(followup_prompt(&quiet).contains("Classement actuel :\nKIT > MIT\n"));
}

#[test]
fn model_address_and_mode() {
    assert_eq!(
        flash_url("k1"),
        "https://generativelanguage.googleapis.com/v1beta/models/gemini-2.0-flash:generateContent?key=k1"
    );
    assert_eq!(response_mime(true), "application/json");
    assert_eq!(response_mime(false), "text/plain");
}

#[test]
fn answer_is_first_part_trimmed() {
    assert_eq!(
        gemini_answer(&vec![vec!["  hello \n".to_string(), "other".to_string()], vec!["x".to_string()]]),
        "hello"
    );
    assert_eq!(gemini_answer(&vec![]), "");
    assert_eq!(gemini_answer(&vec![vec![]]), "");
}

#[test]
fn compare_answer_must_be_json() {
    assert_eq!(
        compare_answer(Some("{ \"ranking\": [\"KIT\", \"MIT\"] }".to_string())),
        Ok("{\"ranking\":[\"KIT\",\"MIT\"]}".to_string())
    );
    assert_eq!(compare_answer(Some(" 42 ".to_string())), Ok("42".to_string()));
    assert_eq!(compare_answer(Some("{}".to_string())), Ok("{}".to_string()));
    assert_eq!(compare_answer(Some("not json".to_string())).err(), Some(500));
    assert_eq!(compare_answer(None).err(), Some(500));
}

#[test]
fn followup_answer_or_error() {
    assert_eq!(followup_answer(Some("Réponse".to_string())).ok().map(|r| r.answer), Some("Réponse".to_string()));
    assert_eq!(followup_answer(None).err(), Some(500));
}

#[test]
fn quiz_prompts() {
    let system_prompt = r#"
Tu es un assistant d'orientation pour les étudiants TC de l'INSA Lyon.
Ta tâche est de proposer un TOP 3 de destinations d'échange adaptées au profil de l'étudiant.

Tu DOIS répondre EXCLUSIVEMENT au format JSON suivant, sans texte autour :
{
  "recommendations": [
    {
      "nom": "Nom court de la destination (ex: KIT)",
      "pays": "Pays (ex: Allemagne)",
      "avis": "Court paragraphe en français expliquant pourquoi cette destination est adaptée",
      "points_forts": [
        "Point fort 1",
        "Point fort 2",
        "Point fort 3"
      ]
    }
  ]
}

- Toujours renvoyer entre 1 et 3 recommandations.
- Le JSON doit être valide.
"#;
    assert_eq!(quiz_system_prompt(), system_prompt);
    let answers = vec!["Allemagne".to_string(), "Froid".to_string()];
    assert_eq!(quiz_answers_text(&answers), "Q1: Allemagne, Q2: Froid");
    assert_eq!(
        quiz_user_prompt(&answers),
        "Voici les réponses de l'étudiant au quiz : [Q1: Allemagne, Q2: Froid]. Propose-lui un TOP 3 de destinations."
    );
    assert_eq!(quiz_answers_text(&[]), "");
}

#[test]
fn quiz_fallback() {
    let answers = vec!["a".to_string(), "b\"c".to_string()];
    let recs = fallback_recommendations(&answers);
    assert_eq!(recs.len(), 1);
    assert_eq!(recs[0].nom, "KIT");
    assert_eq!(recs[0].pays, "Allemagne");
    assert_eq!(recs[0].avis, "Basé sur tes réponses ([\"a\", \"b\\\"c\"]), KIT semble un excellent match.");
    assert_eq!(
        recs[0].points_forts,
        vec![
            "Excellente réputation en ingénierie".to_string(),
            "Nombreux cours en anglais".to_string(),
            "Fort environnement de recherche".to_string()
        ]
    );
    assert_eq!(
        fallback_recommendations(&[])[0].avis,
        "Basé sur tes réponses ([]), KIT semble un excellent match."
    );
}

#[test]
fn quiz_uses_model_when_it_answers() {
    let model = QuizResponse {
        recommendations: vec![Recommendation {
            nom: "TUM".to_string(),
            pays: "Allemagne".to_string(),
            avis: "bien".to_string(),
            points_forts: vec![],
        }],
    };
    let r = quiz_response(&["x".to_string()], Some(model));
    assert_eq!(r.recommendations[0].nom, "TUM");
    let f = quiz_response(&["x".to_string()], None);
    assert_eq!(f.recommendations.len(), 1);
    assert_eq!(f.recommendations[0].nom, "KIT");
}

#[test]
fn login_needs_a_name() {
    assert_eq!(login(LoginRequest { username: String::new() }).err(), Some(400));
    assert_eq!(
        login(LoginRequest { username: "jdupont".to_string() }).ok().map(|r| r.username),
        Some("jdupont".to_string())
    );
}

#[test]
fn database_location() {
    assert_eq!(database_url(None), "sqlite:./tcexchange.db");
    assert_eq!(database_url(Some("sqlite:./x.db".to_string())), "sqlite:./x.db");
}

#[test]
fn languages_column_joins_with_commas() {
    assert_eq!(
        languages_column(Some(vec!["French".to_string(), "English".to_string()])),
        Some("French,English".to_string())
    );
    assert_eq!(languages_column(Some(vec![])), Some(String::new()));
    assert_eq!(languages_column(None), None);
}

#[test]
fn first_choice_of_a_completion() {
    assert_eq!(first_choice(&["a".to_string(), "b".to_string()]), Some("a".to_string()));
    assert_eq!(first_choice(&[]), None);
}

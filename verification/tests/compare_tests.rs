use tcexchange_backend::compare::{
    check_comparison, check_followup, comparison_prompt, comparison_query, comparison_result,
    comparison_url, db_error_message, followup_history, followup_prompt, followup_result,
    join_ids, received_reply, CompareChatContext, CompareChatMessage, DestRow, GeminiReply,
};

fn row(name: Option<&str>, country: Option<&str>, langs: Option<&str>) -> DestRow {
    DestRow {
        university_name: name.map(|s| s.to_string()),
        location: Some("Somewhere".to_string()),
        country: country.map(|s| s.to_string()),
        description: None,
        languages: langs.map(|s| s.to_string()),
        exchange_type: Some("Erasmus+".to_string()),
    }
}

/// The comparison prompt rendered with `format!`, field by field.
fn expected_comparison_prompt(destinations: &[DestRow], criteria: &[String]) -> String {
    let mut destination_index_block = String::new();
    let mut destinations_block = String::new();
    for (i, d) in destinations.iter().enumerate() {
        let name = d.university_name.as_deref().unwrap_or("Non précisé");
        destination_index_block.push_str(&format!("{}. {}\n", i + 1, name));
        destinations_block.push_str(&format!(
            "DESTINATION_{}\nofficial_name: {}\ncountry: {}\nlocation: {}\ntype: {}\nlanguages: {}\ndescription: {}\n\n",
            i + 1,
            name,
            d.country.as_deref().unwrap_or("Non précisé"),
            d.location.as_deref().unwrap_or("Non précisé"),
            d.exchange_type.as_deref().unwrap_or("Non précisé"),
            d.languages.as_deref().unwrap_or("Non précisé"),
            d.description.as_deref().unwrap_or("Non précisé")
        ));
    }
    let criteria_str = if criteria.is_empty() {
        "Aucun critère explicite fourni".to_string()
    } else {
        criteria.join(", ")
    };
    let prompt = format!(
        r#"Tu es un conseiller Erasmus/échange universitaire premium.
Tu parles directement à un étudiant INSA Lyon en Télécommunications.
Tu réponds en français, tu t'adresses toujours à lui avec "tu".

Destinations à comparer :
{}

Données disponibles :
{}

Critères prioritaires de l'étudiant :
{}

Mission :
Fais une comparaison courte, nette, concrète, utile.

Règles obligatoires :
- Tu DOIS utiliser EXACTEMENT les noms officiels fournis ci-dessus dans le champ "name".
- Tu DOIS inclure TOUTES les destinations dans "destinationSummaries".
- Tu DOIS produire un classement complet dans "ranking" avec uniquement les noms exacts fournis.
- Tu ne dois inventer ni université, ni coût, ni météo, ni information absente.
- Si une information manque, dis-le de façon prudente et brève.
- Pas de longs paragraphes.
- Compare d'abord selon les critères donnés par l'étudiant.
- Fais ressortir ce qui distingue vraiment chaque destination des autres.
- Le classement doit dépendre uniquement des critères fournis.
- Si deux destinations sont proches, conserve l'ordre le plus logique selon les critères explicitement mentionnés.
- Base-toi d'abord sur les critères choisis, puis seulement ensuite sur les autres éléments.

Format attendu pour chaque destination :
- shortIntro : 1 phrase courte d'impression générale
- criteriaBreakdown : 2 à 5 entrées maximum
- pour chaque entrée de criteriaBreakdown :
  - criterion : nom du critère
  - level : utilise UNIQUEMENT yes, medium ou no
  - assessment : 1 phrase courte et concrète
- bestFor : 1 phrase courte sur le profil d'étudiant adapté

Le verdict :
- 3 à 5 phrases maximum
- il doit expliquer pourquoi le top 1 passe devant les autres
- il doit mentionner explicitement les critères les plus décisifs
- il doit être direct, utile et personnalisé.

JSON Schema:
{{
  "type": "object",
  "properties": {{
    "destinationSummaries": {{
      "type": "array",
      "items": {{
        "type": "object",
        "properties": {{
          "name": {{ "type": "string" }},
          "shortIntro": {{ "type": "string" }},
          "criteriaBreakdown": {{
            "type": "array",
            "items": {{
              "type": "object",
              "properties": {{
                "criterion": {{ "type": "string" }},
                "level": {{ "type": "string" }},
                "assessment": {{ "type": "string" }}
              }},
              "required": ["criterion", "level", "assessment"]
            }}
          }},
          "bestFor": {{ "type": "string" }}
        }},
        "required": ["name", "shortIntro", "criteriaBreakdown", "bestFor"]
      }}
    }},
    "ranking": {{ "type": "array", "items": {{ "type": "string" }} }},
    "verdict": {{ "type": "string" }}
  }},
  "required": ["destinationSummaries", "ranking", "verdict"]
}}"#,
        destination_index_block.trim(),
        destinations_block.trim(),
        criteria_str
    );
    prompt
}

#[test]
fn refusals_before_any_work() {
    assert_eq!(
        check_comparison("", &[1, 2]),
        Err("Clé API Gemini manquante dans le .env".to_string())
    );
    assert_eq!(check_comparison("", &[]), Err("Clé API Gemini manquante dans le .env".to_string()));
    assert_eq!(check_comparison("key", &[]), Err("Aucune destination sélectionnée".to_string()));
    assert_eq!(check_comparison("key", &[3]), Ok(()));
    assert_eq!(check_followup(""), Err("Clé API manquante".to_string()));
    assert_eq!(check_followup("k"), Ok(()));
}

#[test]
fn query_text() {
    assert_eq!(join_ids(&[1, -2, 30]), "1,-2,30");
    assert_eq!(
        comparison_query(&[4, 17]),
        "SELECT university_name, location, country, description, languages, exchange_type FROM destinations WHERE id IN (4,17)"
    );
    assert_eq!(db_error_message("no such table"), "Erreur DB: no such table");
}

#[test]
fn comparison_prompt_text() {
    let rows = vec![
        row(Some("  MIT"), Some("United States"), Some("English")),
        row(None, None, None),
    ];
    let criteria = vec!["Coût".to_string(), "Météo".to_string()];
    assert_eq!(comparison_prompt(&rows, &criteria), expected_comparison_prompt(&rows, &criteria));
    assert_eq!(comparison_prompt(&rows, &[]), expected_comparison_prompt(&rows, &[]));
    assert_eq!(comparison_prompt(&[], &[]), expected_comparison_prompt(&[], &[]));
    let p = comparison_prompt(&rows, &criteria);
    assert!(p.contains("Destinations à comparer :\n1.   MIT\n2. Non précisé\n\nDonnées"));
    assert!(p.contains("Critères prioritaires de l'étudiant :\nCoût, Météo\n"));
}

#[test]
fn comparison_address() {
    assert_eq!(
        comparison_url("abc"),
        "https://generativelanguage.googleapis.com/v1beta/models/gemini-2.5-flash-preview-09-2025:generateContent?key=abc"
    );
}

#[test]
fn reading_comparison_replies() {
    assert_eq!(comparison_result(GeminiReply::NetworkError), Err("Erreur réseau vers Gemini".to_string()));
    assert_eq!(
        comparison_result(GeminiReply::Received { status: 429, text: Some("{}".to_string()) }),
        Err("QUOTA_EXCEEDED".to_string())
    );
    assert_eq!(
        comparison_result(GeminiReply::Received {
            status: 200,
            text: Some("RESOURCE_EXHAUSTED: quota".to_string())
        }),
        Err("QUOTA_EXCEEDED".to_string())
    );
    assert_eq!(
        comparison_result(GeminiReply::Received { status: 200, text: Some("error 429".to_string()) }),
        Err("QUOTA_EXCEEDED".to_string())
    );
    assert_eq!(
        comparison_result(GeminiReply::Received { status: 200, text: Some("{\"ranking\":[]}".to_string()) }),
        Ok("{\"ranking\":[]}".to_string())
    );
    assert_eq!(
        comparison_result(GeminiReply::Received { status: 500, text: None }),
        Err("Erreur de formatage IA".to_string())
    );
    assert_eq!(
        comparison_result(GeminiReply::Received { status: 200, text: Some(String::new()) }),
        Err("Erreur de formatage IA".to_string())
    );
}

#[test]
fn reading_followup_replies() {
    assert_eq!(followup_result(GeminiReply::NetworkError), Err("Erreur réseau vers Gemini".to_string()));
    assert_eq!(
        followup_result(GeminiReply::Received { status: 429, text: Some("x".to_string()) }),
        Err("QUOTA_EXCEEDED".to_string())
    );
    assert_eq!(
        followup_result(GeminiReply::Received { status: 200, text: Some(String::new()) }),
        Ok(String::new())
    );
    assert_eq!(
        followup_result(GeminiReply::Received { status: 200, text: None }),
        Err("Erreur formatage IA".to_string())
    );
}

#[test]
fn followup_prompt_text() {
    let context = CompareChatContext {
        destinations: vec!["KIT".to_string(), "Uni \"Nord\"".to_string()],
        criteria: vec!["coût".to_string()],
        previous_verdict: "KIT d'abord.".to_string(),
    };
    let history = vec![
        CompareChatMessage { role: "user".to_string(), content: "Et la météo ?".to_string() },
        CompareChatMessage { role: "model".to_string(), content: "Plus froid.".to_string() },
    ];
    assert_eq!(followup_history(&history), "Étudiant: Et la météo ?\nAssistant: Plus froid.");
    let expected = format!(
        "Tu es un conseiller Erasmus INSA TC Lyon.\n\n\
        Contexte de la comparaison en cours :\n\
        - Destinations : {:?}\n\
        - Critères : {:?}\n\
        - Ton verdict précédent : {}\n\n\
        Question : {}\n\n\
        Historique de conversation : {}",
        context.destinations,
        context.criteria,
        context.previous_verdict,
        "Pourquoi ?",
        "Étudiant: Et la météo ?\nAssistant: Plus froid."
    );
    assert_eq!(followup_prompt("Pourquoi ?", &context, &history), expected);
    let no_history = followup_prompt("Pourquoi ?", &context, &[]);
    assert!(no_history.ends_with("Historique de conversation : Aucun"));
    assert!(no_history.contains("- Destinations : [\"KIT\", \"Uni \\\"Nord\\\"\"]\n"));
}

#[test]
fn reading_a_reply_body() {
    let body = br#"{"candidates":[{"content":{"parts":[{"text":"Bonjour"}]}}]}"#;
    match received_reply(200, body) {
        GeminiReply::Received { status, text } => {
            assert_eq!(status, 200);
            assert_eq!(text, Some("Bonjour".to_string()));
        }
        GeminiReply::NetworkError => panic!("a body was received"),
    }
    match received_reply(503, b"not json") {
        GeminiReply::Received { status, text } => {
            assert_eq!(status, 503);
            assert_eq!(text, None);
        }
        GeminiReply::NetworkError => panic!("a body was received"),
    }
    match received_reply(200, br#"{"candidates":[{"content":{"parts":[{"text":7}]}}]}"#) {
        GeminiReply::Received { text, .. } => assert_eq!(text, None),
        GeminiReply::NetworkError => panic!("a body was received"),
    }
}

use tcexchange_backend::chat::{
    completion_text, conversation_context, create_ai_prompt, detect_language_switch,
    find_destination, find_in_history, finish_chat, format_destination, get_countries,
    get_country_info, get_greeting, get_languages, is_english_message, offline_reply,
    plan_chat, ChatContext, ChatMessage, ChatPlan, ChatRequest,
};
use tcexchange_backend::models::Destination;

fn dest(id: i64, uni: &str, country: &str, short: Option<&str>, langs: Option<&str>) -> Destination {
    Destination {
        id,
        university_name: uni.to_string(),
        country: country.to_string(),
        location: None,
        url: None,
        exchange_type: None,
        languages: langs.map(|s| s.to_string()),
        description: None,
        short_name: short.map(|s| s.to_string()),
        position: None,
    }
}

fn catalogue() -> Vec<Destination> {
    vec![
        dest(1, "Karlsruhe Institute of Technology", "Germany", Some("KIT"), Some("German,English")),
        dest(2, "Massachusetts Institute of Technology", "United States", Some("MIT"), Some("English")),
        dest(3, "Universidade de São Paulo", "Brazil", Some("USP"), None),
        dest(4, "Technische Universität München", "Germany", Some("TUM"), Some("German,English")),
    ]
}

fn msg(role: &str, content: &str) -> ChatMessage {
    ChatMessage { role: role.to_string(), content: content.to_string() }
}

#[test]
fn language_switch_requests() {
    assert_eq!(detect_language_switch("Can we speak in ENGLISH?"), Some("en".to_string()));
    assert_eq!(detect_language_switch("Je parle Français"), Some("fr".to_string()));
    assert_eq!(detect_language_switch("in French please"), Some("fr".to_string()));
    assert_eq!(detect_language_switch("english ou francais"), Some("en".to_string()));
    assert_eq!(detect_language_switch("bonjour"), None);
}

#[test]
fn english_heuristic() {
    assert!(is_english_message("HELLO there"));
    assert!(is_english_message("Could you help"));
    assert!(!is_english_message("bonjour"));
    // "hi" occurs inside "chine".
    assert!(is_english_message("la Chine"));
    // Added text keeps a cue.
    assert!(is_english_message("Bonjour, HELLO à tous"));
}

#[test]
fn context_starts_in_french() {
    assert_eq!(ChatContext::default().language, "fr");
}

#[test]
fn greetings() {
    let en = get_greeting("en", 42, 7);
    let expected_en = format!(
        "Hello! I'm the TC Exchange Assistant from INSA Lyon. I can help you find exchange destinations among {} destinations in {} countries.

You can ask me about:
• A specific destination (e.g., \"what is KIT?\")
• A country (e.g., \"destinations in Canada\")
• A language (e.g., \"where can I go to study in English?\")
• General help about exchanges

Note: Exchange programs are available for INSA Lyon TC students in 3TC, 4TC, 3TCA, or 4TCA (Telecommunications specialty).",
        42, 7
    );
    assert_eq!(en, expected_en);
    let fr = get_greeting("fr", 0, 1000);
    let expected_fr = format!(
        "Bonjour ! Je suis l'assistant TC Exchange d'INSA Lyon. Je peux t'aider à trouver des destinations d'échange parmi {} destinations dans {} pays.

Tu peux me demander :
• Une destination spécifique (ex: \"c'est quoi KIT ?\")
• Un pays (ex: \"destinations au Canada\")
• Une langue (ex: \"où partir en anglais ?\")
• De l'aide générale sur les échanges

Note : Les échanges sont ouverts aux étudiants TC de l'INSA Lyon en 3TC, 4TC, 3TCA ou 4TCA (spécialité Télécommunications).",
        0, 1000
    );
    assert_eq!(fr, expected_fr);
    // Anything but "en" is French.
    assert_eq!(get_greeting("EN", 0, 1000), expected_fr);
}

#[test]
fn country_information_defaults() {
    assert_eq!(
        get_country_info("Canada", "en"),
        "I don't have detailed information about Canada yet, but I can tell you about the universities available there!"
    );
    assert_eq!(
        get_country_info("Japon", "fr"),
        "Je n'ai pas encore d'informations détaillées sur Japon, mais je peux vous parler des universités disponibles !"
    );
}

#[test]
fn countries_sorted_and_distinct() {
    let mut ds = catalogue();
    ds.push(dest(5, "Åbo Akademi", "Åland", None, None));
    ds.push(dest(6, "McGill University", "Canada", Some("McGill"), Some("English,French")));
    assert_eq!(
        get_countries(&ds),
        vec!["Brazil", "Canada", "Germany", "United States", "Åland"]
    );
    assert_eq!(get_countries(&[]), Vec::<String>::new());
}

#[test]
fn languages_sorted_and_distinct() {
    let ds = catalogue();
    assert_eq!(get_languages(&ds), vec!["English", "German,English"]);
}

#[test]
fn find_by_exact_short_name() {
    let ds = catalogue();
    assert_eq!(find_destination("KIT", &ds).map(|d| d.id), Some(1));
    assert_eq!(find_destination("mit", &ds).map(|d| d.id), Some(2));
}

#[test]
fn find_by_short_name_word() {
    let ds = catalogue();
    assert_eq!(find_destination("tell me about tum please", &ds).map(|d| d.id), Some(4));
    // Punctuation glued to the name keeps it from matching.
    assert_eq!(find_destination("what is KIT?", &ds).map(|d| d.id), None);
}

#[test]
fn find_by_university_words_first_best() {
    let ds = catalogue();
    // KIT and MIT score the same; the first one wins.
    assert_eq!(find_destination("institute of technology", &ds).map(|d| d.id), Some(1));
    assert_eq!(find_destination("Massachusetts", &ds).map(|d| d.id), Some(2));
    assert_eq!(find_destination("são paulo", &ds).map(|d| d.id), Some(3));
    // Words of at most 3 bytes do not count.
    assert_eq!(find_destination("de", &ds).map(|d| d.id), None);
    assert_eq!(find_destination("nothing here", &ds).map(|d| d.id), None);
}

#[test]
fn find_with_missing_short_name() {
    let ds = vec![dest(9, "Somewhere", "Nowhere", None, None)];
    // An absent short name earns no points, even against an empty message.
    assert_eq!(find_destination("", &ds).map(|d| d.id), None);
    assert_eq!(find_destination("somewhere", &ds).map(|d| d.id), Some(9));
    assert_eq!(find_destination("x", &ds).map(|d| d.id), None);
}

#[test]
fn history_search_looks_at_last_four() {
    let ds = catalogue();
    let history = vec![
        msg("user", "KIT"),
        msg("assistant", "ok"),
        msg("user", "a"),
        msg("assistant", "b"),
        msg("user", "c"),
    ];
    assert_eq!(find_in_history(&history, &ds).map(|d| d.id), None);
    let history2 = vec![msg("user", "MIT"), msg("user", "KIT"), msg("assistant", "ok")];
    assert_eq!(find_in_history(&history2, &ds).map(|d| d.id), Some(1));
}

#[test]
fn conversation_language() {
    let req = ChatRequest {
        message: "bonjour".to_string(),
        history: vec![msg("user", "in english please"), msg("assistant", "sure")],
    };
    assert_eq!(conversation_context(&req).language, "en");
    let req2 = ChatRequest {
        message: "je parle français".to_string(),
        history: vec![msg("user", "in english please")],
    };
    assert_eq!(conversation_context(&req2).language, "fr");
    let req3 = ChatRequest { message: "what is this".to_string(), history: vec![] };
    assert_eq!(conversation_context(&req3).language, "en");
    let req4 = ChatRequest { message: "salut".to_string(), history: vec![] };
    assert_eq!(conversation_context(&req4).language, "fr");
}

#[test]
fn plan_goes_to_the_model() {
    let req = ChatRequest { message: "hello".to_string(), history: vec![] };
    match plan_chat(&req, &catalogue()) {
        ChatPlan::AskAi { language, prompt } => {
            assert_eq!(language, "en");
            assert_eq!(prompt, "");
        }
        ChatPlan::Answer(_) => panic!("no direct answer is produced"),
    }
    let ctx = ChatContext::default();
    assert_eq!(create_ai_prompt("x", &[], &[], &ctx), "");
    assert_eq!(format_destination(&catalogue()[0], "en"), "");
}

#[test]
fn replies_around_the_model() {
    assert_eq!(offline_reply("en").response, "Sorry, my AI brain is offline (no API key).");
    assert_eq!(
        offline_reply("fr").response,
        "Désolé, mon cerveau IA est hors ligne (clé API manquante)."
    );
    assert_eq!(finish_chat("en", Some("answer".to_string())).response, "answer");
    assert_eq!(
        finish_chat("en", None).response,
        "Sorry, I'm experiencing technical issues. Please try again in a moment!"
    );
    assert_eq!(
        finish_chat("fr", None).response,
        "Désolé, je rencontre un problème technique. Réessaie dans un instant !"
    );
    assert_eq!(completion_text(None), "Désolé, je n'ai pas compris.");
    assert_eq!(completion_text(Some("yes".to_string())), "yes");
}

#[test]
fn country_list_ignores_order_and_repetition() {
    let ds = catalogue();
    let mut shuffled: Vec<Destination> = catalogue().into_iter().rev().collect();
    shuffled.push(dest(7, "Freie Universität Berlin", "Germany", Some("FU"), None));
    assert_eq!(get_countries(&ds), get_countries(&shuffled));
}

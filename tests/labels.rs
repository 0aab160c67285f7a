use cosmic_library::labels::{
    analyze_universe_type, classify_genres, dramatic_events, finale_type, genre_name, genre_of,
};

#[test]
fn universe_type_names() {
    assert_eq!(analyze_universe_type(0), "Estéril");
    assert_eq!(analyze_universe_type(1), "Químico");
    assert_eq!(analyze_universe_type(2), "Nuclear");
    assert_eq!(analyze_universe_type(3), "Estelar");
    assert_eq!(analyze_universe_type(4), "Complejo");
    assert_eq!(analyze_universe_type(5), "Reproductivo");
    assert_eq!(analyze_universe_type(6), "Trascendente");
    assert_eq!(analyze_universe_type(255), "Trascendente");
}

#[test]
fn finale_names() {
    assert_eq!(finale_type(0), "Stillborn Silence");
    assert_eq!(finale_type(3), "Stellar Symphony");
    assert_eq!(finale_type(5), "Reproductive Renaissance");
    assert_eq!(finale_type(9), "Unknown Epic");
}

#[test]
fn genre_names_and_indices() {
    assert_eq!(genre_of(0), 0);
    assert_eq!(genre_of(5), 5);
    assert_eq!(genre_of(6), 6);
    assert_eq!(genre_of(200), 6);
    assert_eq!(genre_name(0), "Cosmic Horror");
    assert_eq!(genre_name(4), "Epic Fantasy");
    assert_eq!(genre_name(6), "Experimental Fiction");
}

#[test]
fn genres_group_books_in_order() {
    let books = vec![(137, 3), (12, 0), (500, 3), (7, 9), (1, 0)];
    let g = classify_genres(&books);
    assert_eq!(g.len(), 7);
    assert_eq!(g[0], vec![12, 1]);
    assert_eq!(g[3], vec![137, 500]);
    assert_eq!(g[6], vec![7]);
    assert!(g[1].is_empty() && g[2].is_empty() && g[4].is_empty() && g[5].is_empty());
}

#[test]
fn genres_of_no_books() {
    let g = classify_genres(&Vec::new());
    assert_eq!(g.len(), 7);
    assert!(g.iter().all(|b| b.is_empty()));
}

#[test]
fn milestones_in_order() {
    assert_eq!(
        dramatic_events(true, false, true, true),
        vec!["The Great Nucleosynthesis", "The Chemical Revolution", "The Portal Makers Awaken"]
    );
    assert!(dramatic_events(false, false, false, false).is_empty());
    assert_eq!(dramatic_events(false, true, false, false), vec!["The Age of Stars Begins"]);
}

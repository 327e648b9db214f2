use mtg_search::app::{App, KeyCode, KeyInput};
use mtg_search::collection::{compute_view, matches_folded, CollectionStore, Entry, StoreError, User};

fn card(name: &str) -> Entry {
    Entry {
        quantity: 1,
        name: name.to_string(),
        set: "lea".to_string(),
        multiverse: "100".to_string(),
        scryfall: "abc".to_string(),
        price_cents: 150,
    }
}

fn two_owner_store() -> CollectionStore {
    CollectionStore::from_fetched(vec![
        Ok(vec![card("Lightning Bolt"), card("Shock")]),
        Ok(vec![card("Counterspell")]),
    ])
    .unwrap()
}

fn names(view: &[(User, Entry)]) -> Vec<(User, String)> {
    view.iter().map(|(u, e)| (*u, e.name.clone())).collect()
}

#[test]
fn view_keeps_owner_then_record_order() {
    let store = two_owner_store();
    // "Lightning Bolt" holds an "o" too
    let view = compute_view(&store, &"o".to_string());
    assert_eq!(
        names(&view),
        vec![
            (User::Strosel, "Lightning Bolt".to_string()),
            (User::Strosel, "Shock".to_string()),
            (User::Amon8808, "Counterspell".to_string())
        ]
    );
    let view = compute_view(&store, &"c".to_string());
    assert_eq!(
        names(&view),
        vec![(User::Strosel, "Shock".to_string()), (User::Amon8808, "Counterspell".to_string())]
    );
}

#[test]
fn empty_search_keeps_everything() {
    let store = two_owner_store();
    let view = compute_view(&store, &String::new());
    assert_eq!(view.len(), 3);
    assert!(card("").matches(String::new()));
    assert!(card("Shock").matches(String::new()));
}

#[test]
fn matching_ignores_case() {
    assert!(card("Lightning Bolt").matches("BOLT".to_string()));
    assert!(card("Lightning Bolt").matches("ning b".to_string()));
    assert!(!card("Lightning Bolt").matches("bolts".to_string()));
    assert!(!card("Shock").matches("sk".to_string()));
    assert!(matches_folded("lightning bolt", "bolt"));
    assert!(!matches_folded("lightning bolt", "BOLT"));
    assert!(matches_folded("", ""));
}

#[test]
fn longer_search_never_adds_rows() {
    let store = two_owner_store();
    let mut last = usize::MAX;
    for q in ["", "s", "sh", "sho", "shoc", "shock", "shockx"] {
        let n = compute_view(&store, &q.to_string()).len();
        assert!(n <= last);
        last = n;
    }
    assert_eq!(compute_view(&store, &"sh".to_string()).len(), 1);
    assert_eq!(compute_view(&store, &"shockx".to_string()).len(), 0);
}

#[test]
fn final_sigma_folds_by_context() {
    // "aΣ" folds to "aς", "aΣb" to "aσb": the longer search matches more.
    assert!(!card("aσb").matches("aΣ".to_string()));
    assert!(card("aσb").matches("aΣb".to_string()));
}

#[test]
fn failed_fetch_aborts_the_store() {
    let r = CollectionStore::from_fetched(vec![Ok(vec![card("Shock")]), Err("timeout".to_string())]);
    match r {
        Err(StoreError::Fetch { owner, message }) => {
            assert_eq!(owner, User::Amon8808);
            assert_eq!(message, "timeout");
        }
        _ => panic!("expected a fetch error"),
    }
    let r = CollectionStore::from_fetched(vec![Err("down".to_string()), Err("later".to_string())]);
    match r {
        Err(StoreError::Fetch { owner, message }) => {
            assert_eq!(owner, User::Strosel);
            assert_eq!(message, "down");
        }
        _ => panic!("expected a fetch error"),
    }
}

#[test]
fn missing_owner_aborts_the_store() {
    let r = CollectionStore::from_fetched(vec![Ok(vec![card("Shock")])]);
    assert!(matches!(r, Err(StoreError::Incomplete { received: 1 })));
    let r = CollectionStore::from_fetched(vec![Ok(Vec::new()), Ok(Vec::new()), Ok(Vec::new())]);
    assert!(matches!(r, Err(StoreError::Incomplete { received: 3 })));
}

#[test]
fn store_keeps_each_owner_records() {
    let store = two_owner_store();
    assert_eq!(store.collection(0).len(), 2);
    assert_eq!(store.collection(0)[1].name, "Shock");
    assert_eq!(store.collection(1)[0].name, "Counterspell");
}

#[test]
fn row_cells() {
    let mut e = card("Shock");
    e.quantity = 12;
    e.price_cents = 1234;
    let row = e.as_row(User::Amon8808);
    assert_eq!(row, vec!["Amon8808", "12", "Shock", "lea", "100", "abc", "12.34€"]);
    e.quantity = 0;
    e.price_cents = 5;
    let row = e.as_row(User::Strosel);
    assert_eq!(row[0], "Strosel");
    assert_eq!(row[1], "0");
    assert_eq!(row[6], "0.05€");
}

#[test]
fn owners() {
    assert_eq!(User::all(), vec![User::Strosel, User::Amon8808]);
    assert_eq!(User::Strosel.id(), 331139);
    assert_eq!(User::Amon8808.id(), 324351);
    assert_eq!(User::Strosel.name(), "Strosel");
}

#[test]
fn selection_follows_the_view() {
    let mut app = App::new(two_owner_store());
    app.selected = Some(2);
    let key = |c| KeyInput { code: KeyCode::Char(c), control_only: false, press: true };
    app.handle_key(key('s'));
    assert_eq!(app.view().len(), 2);
    assert_eq!(app.selected, Some(1));
    app.handle_key(key('h'));
    assert_eq!(app.selected, Some(0));
    app.handle_key(key('x'));
    assert_eq!(app.view().len(), 0);
    assert_eq!(app.selected, None);
}

use phonoscule::library::Album;
use phonoscule::sort::Dir::{Asc, Desc};
use phonoscule::sort::SortField::{Name, Year};
use phonoscule::sort::SortOrder;

fn album(artist: &str, title: &str, year: Option<u32>) -> Album {
    Album {
        // Irrelevant to these assertions (the id only breaks ties between identical titles).
        id: 0,
        title: title.into(),
        artist: artist.into(),
        genre: String::new(),
        year,
        cover_id: None,
        cover: None,
        accent: None,
        tracks: vec![],
    }
}

/// Sorting a small library by each order gives the expected album sequence.
#[test]
fn sort_orders_albums() {
    let sorted = |sort: SortOrder, albums: &[Album]| -> Vec<String> {
        let mut ixs: Vec<usize> = (0..albums.len()).collect();
        ixs.sort_by(|&a, &b| sort.cmp(&albums[a], &albums[b]));
        ixs.into_iter().map(|i| albums[i].title.clone()).collect()
    };
    // Two artists; "Zoo" has an undated album to exercise the missing-year end.
    let albums = [
        album("Az", "Beta", Some(2001)),
        album("Az", "Alpha", Some(2010)),
        album("Zoo", "Gamma", Some(2005)),
        album("Zoo", "Delta", None),
    ];

    let name_desc = SortOrder { group_by_artist: None, field: Name, field_dir: Desc };
    assert_eq!(sorted(name_desc, &albums), ["Gamma", "Delta", "Beta", "Alpha"]);

    let name_asc = SortOrder { group_by_artist: None, field: Name, field_dir: Asc };
    assert_eq!(sorted(name_asc, &albums), ["Alpha", "Beta", "Delta", "Gamma"]);
    assert_eq!(name_asc, SortOrder::default(), "Name ↑ (ascending) is the default");

    let year_desc = SortOrder { group_by_artist: None, field: Year, field_dir: Desc };
    assert_eq!(sorted(year_desc, &albums), ["Alpha", "Gamma", "Beta", "Delta"], "the undated album sorts last");

    let year_asc = SortOrder { group_by_artist: None, field: Year, field_dir: Asc };
    assert_eq!(sorted(year_asc, &albums), ["Delta", "Beta", "Gamma", "Alpha"], "and first, ascending");

    // Group by artist descending (Zoo before Az), albums by name ascending within each group.
    let grouped = SortOrder { group_by_artist: Some(Desc), field: Name, field_dir: Asc };
    assert_eq!(sorted(grouped, &albums), ["Delta", "Gamma", "Alpha", "Beta"]);
}

/// The offered orders are the twelve distinct combinations, with the expected labels.
#[test]
fn sort_options_are_labelled() {
    let all = SortOrder::all();
    assert_eq!(all.len(), 12);
    let labels: Vec<String> = all.iter().map(|s| s.label()).collect();
    let unique: std::collections::HashSet<&String> = labels.iter().collect();
    assert_eq!(unique.len(), 12, "every option is distinct");
    assert_eq!(all[0].label(), "Name ↑", "the default heads the list");
    assert!(labels.contains(&"Artist ↓, Name ↓".to_string()));
    assert!(labels.contains(&"Artist ↑, Year ↑".to_string()));
}

/// Names fold case, and ids settle what names leave open.
#[test]
fn sorting_folds_case_and_falls_back_on_ids() {
    let order = SortOrder::default();
    assert_eq!(order.cmp(&album("x", "alpha", None), &album("x", "BETA", None)), std::cmp::Ordering::Less);
    let (mut a, mut b) = (album("x", "same", None), album("x", "same", None));
    a.id = 1;
    b.id = 2;
    assert_eq!(order.cmp(&a, &b), std::cmp::Ordering::Less);
    assert_eq!(order.cmp(&b, &a), std::cmp::Ordering::Greater);
    assert_eq!(order.cmp(&a, &a), std::cmp::Ordering::Equal);
}

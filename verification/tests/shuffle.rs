use orchestre::shuffle::{
    balanced_shuffle, cluster_key, count_up, interleave, jitter, ClusterKey, SWAP_DRAWS,
};
use orchestre::time::Duration;
use orchestre::track::{Id, MusicCollection, Song};

fn song(id: Id, artists: Vec<Id>, album: Option<Id>) -> Song {
    Song {
        id,
        title: format!("song {id}"),
        file_path: format!("/music/{id}.flac"),
        duration: Duration::from_secs(200),
        artists,
        album,
        created_at: 0,
        track: None,
    }
}

#[test]
fn rounds_take_the_longest_buckets_first() {
    let buckets = vec![vec![1], vec![2, 3, 4], vec![5, 6]];
    assert_eq!(interleave(&buckets), vec![4, 6, 1, 3, 5, 2]);
}

#[test]
fn rounds_take_buckets_of_one_item_from_the_back() {
    let buckets = vec![vec![1], vec![2], vec![3], vec![4]];
    assert_eq!(interleave(&buckets), vec![1, 4, 3, 2]);
}

#[test]
fn rounds_of_nothing_are_empty() {
    assert_eq!(interleave(&Vec::new()), Vec::<usize>::new());
}

#[test]
fn buckets_of_one_length_keep_their_order() {
    let buckets = vec![vec![1, 2], vec![3, 4], vec![5, 6]];
    assert_eq!(interleave(&buckets), vec![2, 4, 6, 1, 5, 3]);
}

#[test]
fn jitter_exchanges_neighbours_where_a_draw_is_low() {
    let items = vec![10, 20, 30, 40, 50];
    assert_eq!(jitter(&items, &vec![0, u32::MAX, 0]), vec![10, 30, 20, 50, 40]);
    assert_eq!(jitter(&items, &vec![u32::MAX; 3]), items);
    assert_eq!(jitter(&items, &vec![0; 3]), vec![10, 30, 40, 50, 20]);
}

#[test]
fn jitter_threshold_is_exact() {
    let items = vec![1, 2, 3];
    let last_low = SWAP_DRAWS * 256 - 1;
    assert_eq!(jitter(&items, &vec![last_low]), vec![1, 3, 2]);
    assert_eq!(jitter(&items, &vec![last_low + 1]), vec![1, 2, 3]);
    let unit = (last_low >> 8) as f32 * (1.0 / 16777216.0);
    assert!(unit < 0.35);
    let next = ((last_low + 1) >> 8) as f32 * (1.0 / 16777216.0);
    assert!(!(next < 0.35));
}

#[test]
fn jitter_leaves_short_lists_alone() {
    assert_eq!(jitter(&vec![], &vec![]), Vec::<usize>::new());
    assert_eq!(jitter(&vec![7], &vec![]), vec![7]);
    assert_eq!(jitter(&vec![7, 8], &vec![]), vec![7, 8]);
}

#[test]
fn a_balanced_shuffle_is_a_permutation() {
    let items: Vec<usize> = (100..140).collect();
    let keys: Vec<ClusterKey> = (0..40).map(|i| ClusterKey::Artist(i % 7)).collect();
    for _ in 0..50 {
        let mut shuffled = balanced_shuffle(&items, &keys);
        shuffled.sort();
        assert_eq!(shuffled, items);
    }
}

#[test]
fn a_shuffle_does_shuffle() {
    let items = count_up(40);
    let keys: Vec<ClusterKey> = (0..40).map(ClusterKey::Track).collect();
    let moved = (0..20).any(|_| balanced_shuffle(&items, &keys) != items);
    assert!(moved);
    let first = balanced_shuffle(&items, &keys);
    assert!((0..20).any(|_| balanced_shuffle(&items, &keys) != first));
}

#[test]
fn two_items_come_in_either_order() {
    let items = vec![4, 9];
    let keys = vec![ClusterKey::Artist(1), ClusterKey::Artist(1)];
    let mut seen = (false, false);
    for _ in 0..200 {
        let shuffled = balanced_shuffle(&items, &keys);
        if shuffled == vec![4, 9] {
            seen.0 = true;
        } else if shuffled == vec![9, 4] {
            seen.1 = true;
        } else {
            panic!("not a permutation");
        }
    }
    assert!(seen.0 && seen.1);
}

#[test]
fn jitter_comes_of_random_draws() {
    // With one cluster the rounds are the shuffled bucket, so only a check on
    // many runs can tell: of two clusters of two, the first two of the rounds
    // are of different clusters, and a swap of the second and third undoes it.
    let items = count_up(4);
    let keys = vec![
        ClusterKey::Artist(1),
        ClusterKey::Artist(1),
        ClusterKey::Artist(2),
        ClusterKey::Artist(2),
    ];
    let mut swapped = 0;
    let mut straight = 0;
    for _ in 0..400 {
        let s = balanced_shuffle(&items, &keys);
        let cluster = |i: usize| s[i] / 2;
        if cluster(0) == cluster(1) {
            swapped += 1;
        } else {
            straight += 1;
        }
    }
    assert!(swapped > 0 && straight > 0);
}

#[test]
fn an_even_spread_keeps_one_artist_apart() {
    // Before the jitter, five tracks of one artist among five of others never
    // follow one another.
    let buckets = vec![vec![0, 1, 2, 3, 4], vec![5], vec![6], vec![7], vec![8]];
    assert_eq!(interleave(&buckets), vec![4, 5, 8, 7, 6, 3, 2, 1, 0]);
    let even = vec![vec![0, 1, 2], vec![3, 4, 5]];
    assert_eq!(interleave(&even), vec![2, 5, 1, 4, 0, 3]);
}

#[test]
fn the_cluster_is_artist_then_album_then_track() {
    let mut collection = MusicCollection::new();
    collection.songs.insert(1, song(1, vec![11, 12], Some(21)));
    collection.songs.insert(2, song(2, vec![], Some(21)));
    collection.songs.insert(3, song(3, vec![], None));
    assert_eq!(cluster_key(1, &collection), ClusterKey::Artist(11));
    assert_eq!(cluster_key(2, &collection), ClusterKey::Album(21));
    assert_eq!(cluster_key(3, &collection), ClusterKey::Track(3));
    assert_eq!(cluster_key(4, &collection), ClusterKey::Track(4));
}

#[test]
fn counting_up_starts_at_zero() {
    assert_eq!(count_up(4), vec![0, 1, 2, 3]);
    assert_eq!(count_up(0), Vec::<usize>::new());
}

#[test]
fn jitter_brings_no_item_forward_by_two_places() {
    let items: Vec<usize> = (0..8).collect();
    for pattern in 0..64u32 {
        let draws: Vec<u32> =
            (0..6).map(|b| if pattern >> b & 1 == 1 { 0 } else { u32::MAX }).collect();
        for (place, item) in jitter(&items, &draws).into_iter().enumerate() {
            assert!(item <= place + 1);
        }
    }
}

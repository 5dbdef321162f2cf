use enum_collections::render::render_map;
use enum_collections::sparse;
use enum_collections::{EnumMap, EnumTable, Enumerated};
use std::cell::Cell;
use std::rc::Rc;

#[derive(Debug, PartialEq, Eq, Clone, Copy)]
enum Letter {
    A,
    B,
}

impl Enumerated for Letter {
    const SIZE: usize = 2;

    fn position(self) -> usize {
        match self {
            Letter::A => 0,
            Letter::B => 1,
        }
    }

    fn variants() -> Vec<Self> {
        vec![Letter::A, Letter::B]
    }
}

#[derive(Debug, PartialEq, Eq, Clone, Copy)]
enum Light {
    Red,
    Amber,
    Green,
}

impl Enumerated for Light {
    const SIZE: usize = 3;

    fn position(self) -> usize {
        match self {
            Light::Red => 0,
            Light::Amber => 1,
            Light::Green => 2,
        }
    }

    fn variants() -> Vec<Self> {
        vec![Light::Red, Light::Amber, Light::Green]
    }
}

/// Counts how many of its instances were dropped.
struct Counted {
    drops: Rc<Cell<usize>>,
}

impl Drop for Counted {
    fn drop(&mut self) {
        self.drops.set(self.drops.get() + 1);
    }
}

#[test]
fn positions_are_a_bijection_onto_the_range() {
    let mut seen = vec![false; Light::SIZE];
    for variant in Light::variants() {
        let position = variant.position();
        assert!(position < Light::SIZE);
        assert!(!seen[position]);
        seen[position] = true;
    }
    assert!(seen.iter().all(|hit| *hit));
    assert_eq!(0, false.position());
    assert_eq!(1, true.position());
}

#[test]
fn variants_are_listed_at_their_position() {
    for variant in Light::variants() {
        assert_eq!(variant, Light::variants()[variant.position()]);
    }
    for (index, variant) in Light::variants().into_iter().enumerate() {
        assert_eq!(index, variant.position());
    }
    assert_eq!(vec![false, true], bool::variants());
    assert_eq!(3, Light::variants().len());
}

#[test]
fn table_starts_at_default_and_insert_touches_one_slot() {
    let mut table = EnumTable::<Light, i32>::new();
    for key in Light::variants() {
        assert_eq!(0, *table.get(key));
    }
    table.insert(Light::Amber, 7);
    assert_eq!(0, *table.get(Light::Red));
    assert_eq!(7, *table.get(Light::Amber));
    assert_eq!(0, *table.get(Light::Green));
    table[Light::Green] = 9;
    assert_eq!(0, table[Light::Red]);
    assert_eq!(7, table[Light::Amber]);
    assert_eq!(9, table[Light::Green]);
    table.insert(Light::Amber, 8);
    assert_eq!(8, table[Light::Amber]);
}

#[test]
fn sparse_map_starts_empty_and_tracks_presence() {
    let mut map = sparse::EnumMap::<Light, i32>::new();
    for key in Light::variants() {
        assert_eq!(None, map.get(key));
    }
    map.insert(Light::Green, 3);
    assert_eq!(Some(&3), map.get(Light::Green));
    assert_eq!(None, map.get(Light::Red));
    assert_eq!(None, map.get(Light::Amber));
    map.insert(Light::Green, 4);
    assert_eq!(Some(&4), map.get(Light::Green));
    map.remove(Light::Green);
    assert_eq!(None, map.get(Light::Green));
}

#[test]
fn sparse_map_index_assignment_sets_and_clears() {
    let mut map = sparse::EnumMap::<Letter, i32>::default();
    map[Letter::B] = Some(5);
    assert_eq!(Some(5), map[Letter::B]);
    assert_eq!(None, map[Letter::A]);
    map[Letter::B] = None;
    assert_eq!(None, map.get(Letter::B));
}

#[test]
fn remove_and_reset_are_idempotent() {
    let mut map = sparse::EnumMap::<Letter, i32>::new();
    map.remove(Letter::A);
    assert_eq!(None, map.get(Letter::A));
    map.insert(Letter::A, 1);
    map.insert(Letter::B, 2);
    map.remove(Letter::A);
    map.remove(Letter::A);
    assert_eq!(None, map.get(Letter::A));
    assert_eq!(Some(&2), map.get(Letter::B));

    let mut table = EnumTable::<Letter, i32>::new();
    table.insert(Letter::A, 1);
    table.insert(Letter::B, 2);
    table.reset(Letter::A);
    table.reset(Letter::A);
    assert_eq!(0, *table.get(Letter::A));
    assert_eq!(2, *table.get(Letter::B));
}

#[test]
fn equality_is_an_equivalence_on_equal_instances() {
    let first = EnumMap::<Letter, i32, { Letter::SIZE }>::new(|| 42);
    let second = EnumMap::<Letter, i32, { Letter::SIZE }>::new(|| 42);
    let third = EnumMap::<Letter, i32, { Letter::SIZE }>::new(|| 42);
    assert!(first == first);
    assert!(first == second);
    assert!(second == first);
    assert!(second == third);
    assert!(first == third);
    let different = EnumMap::<Letter, i32, { Letter::SIZE }>::new_default();
    assert!(first != different);

    let one = EnumTable::<Letter, i32>::from_fn(|_| 42);
    let two = EnumTable::<Letter, i32>::from_fn(|_| 42);
    let three = EnumTable::<Letter, i32>::from_fn(|_| 42);
    assert!(one == one);
    assert!(one == two);
    assert!(two == one);
    assert!(two == three);
    assert!(one == three);
    let mut other = EnumTable::<Letter, i32>::from_fn(|_| 42);
    other.insert(Letter::B, 41);
    assert!(one != other);
}

#[test]
fn dump_follows_variant_order_not_insertion_order() {
    let mut table = EnumTable::<Letter, i32>::new();
    table.insert(Letter::B, 2);
    table.insert(Letter::A, 1);
    assert_eq!(Some("{A: 1, B: 2}".to_string()), table.debug_string());

    let mut map = EnumMap::<Letter, Option<i32>, { Letter::SIZE }>::new_option();
    map[Letter::B] = Some(2);
    map[Letter::A] = Some(1);
    assert_eq!(
        Some("{A: Some(1), B: Some(2)}".to_string()),
        map.debug_string()
    );
    let pairs = map.iter_kv();
    assert_eq!(2, pairs.len());
    assert_eq!((Letter::A, &Some(1)), pairs[0]);
    assert_eq!((Letter::B, &Some(2)), pairs[1]);
}

#[test]
fn two_variant_scenario() {
    let mut table = EnumTable::<Letter, i32>::new();
    assert_eq!(0, *table.get(Letter::A));
    assert_eq!(0, *table.get(Letter::B));
    table[Letter::A] = 42;
    assert_eq!(42, *table.get(Letter::A));
    assert_eq!(0, *table.get(Letter::B));

    let mut map = sparse::EnumMap::<Letter, i32>::new();
    assert_eq!(None, map.get(Letter::A));
    assert_eq!(None, map.get(Letter::B));
    map.insert(Letter::A, 42);
    assert_eq!(Some(&42), map.get(Letter::A));
    map.remove(Letter::A);
    assert_eq!(None, map.get(Letter::A));
}

#[test]
fn buffer_is_released_exactly_once() {
    let drops = Rc::new(Cell::new(0));
    {
        let mut map = sparse::EnumMap::<Light, Counted>::new();
        for key in Light::variants() {
            map.insert(
                key,
                Counted {
                    drops: drops.clone(),
                },
            );
        }
        assert_eq!(0, drops.get());
        map.insert(
            Light::Red,
            Counted {
                drops: drops.clone(),
            },
        );
        assert_eq!(1, drops.get());
    }
    assert_eq!(4, drops.get());
    {
        let _untouched = sparse::EnumMap::<Light, Counted>::new();
    }
    assert_eq!(4, drops.get());
}

#[test]
fn from_fn_visits_variants_in_order() {
    let visited = Cell::new(0usize);
    let table = EnumTable::<Light, usize>::from_fn(|key| {
        assert_eq!(visited.get(), key.position());
        visited.set(visited.get() + 1);
        key.position() * 10
    });
    assert_eq!(3, visited.get());
    assert_eq!(0, table[Light::Red]);
    assert_eq!(10, table[Light::Amber]);
    assert_eq!(20, table[Light::Green]);
}

#[test]
fn new_inspect_gives_each_variant_its_own_value() {
    let map = EnumMap::<Light, u8, { Light::SIZE }>::new_inspect(|key| match key {
        Light::Red => 1,
        Light::Amber => 2,
        Light::Green => 3,
    });
    assert_eq!(1, map[Light::Red]);
    assert_eq!(2, map[Light::Amber]);
    assert_eq!(3, map[Light::Green]);
    let values: Vec<u8> = map.iter().copied().collect();
    assert_eq!(vec![1, 2, 3], values);
}

#[test]
fn fills_replace_every_value() {
    let mut map = EnumMap::<Letter, i32, { Letter::SIZE }>::new_with_all(42);
    assert_eq!(42, map[Letter::A]);
    assert_eq!(42, map[Letter::B]);
    map.set_all(|| 24);
    map.iter().for_each(|value| assert_eq!(24, *value));
    map.clear_set_default();
    map.iter().for_each(|value| assert_eq!(0, *value));

    let mut optional = EnumMap::<Letter, Option<i32>, { Letter::SIZE }>::new_option();
    optional[Letter::A] = Some(10);
    optional[Letter::B] = Some(20);
    optional.clear_set_none();
    optional.iter().for_each(|value| assert_eq!(None, *value));
}

#[test]
fn clone_and_copy_keep_the_values() {
    let mut map = EnumMap::<Letter, i32, { Letter::SIZE }>::new(|| 42);
    map[Letter::B] = 7;
    let cloned = map.clone();
    assert!(map == cloned);
    let copied = map;
    assert!(map == copied);
    assert_eq!(7, copied[Letter::B]);

    let texts = EnumMap::<Letter, String, { Letter::SIZE }>::new_inspect(|key| match key {
        Letter::A => "a".to_string(),
        Letter::B => "b".to_string(),
    });
    let again = texts.clone();
    assert_eq!("a", again[Letter::A]);
    assert_eq!("b", again[Letter::B]);
}

#[test]
fn entries_are_placed_by_key_and_the_last_one_wins() {
    let map = EnumMap::<Light, i32, { Light::SIZE }>::from_entries(vec![
        (Light::Green, 3),
        (Light::Red, 1),
        (Light::Green, 30),
    ]);
    assert_eq!(1, map[Light::Red]);
    assert_eq!(0, map[Light::Amber]);
    assert_eq!(30, map[Light::Green]);

    let empty = EnumMap::<Light, i32, { Light::SIZE }>::from_entries(Vec::new());
    assert!(empty == EnumMap::<Light, i32, { Light::SIZE }>::new_default());
}

#[test]
fn render_map_formats_entries() {
    assert_eq!("{}", render_map(&Vec::new()));
    assert_eq!(
        "{A: 1}",
        render_map(&vec![("A".to_string(), "1".to_string())])
    );
    assert_eq!(
        "{B: 2, A: 1, C: 3}",
        render_map(&vec![
            ("B".to_string(), "2".to_string()),
            ("A".to_string(), "1".to_string()),
            ("C".to_string(), "3".to_string())
        ])
    );
}

#[test]
fn table_default_equals_new() {
    let table: EnumTable<Letter, i32> = Default::default();
    assert!(table == EnumTable::<Letter, i32>::new());
    assert_eq!(Some("{A: 0, B: 0}".to_string()), table.debug_string());
}

#[test]
fn containers_are_ordered_value_by_value_in_variant_order() {
    let low = EnumTable::<Light, i32>::from_fn(|key| match key {
        Light::Red => 1,
        Light::Amber => 5,
        Light::Green => 0,
    });
    let high = EnumTable::<Light, i32>::from_fn(|key| match key {
        Light::Red => 1,
        Light::Amber => 6,
        Light::Green => -9,
    });
    assert!(low < high);
    assert!(high > low);
    assert!(low <= low);
    assert_eq!(Some(std::cmp::Ordering::Less), low.partial_cmp(&high));
    assert_eq!(Some(std::cmp::Ordering::Greater), high.partial_cmp(&low));
    assert_eq!(Some(std::cmp::Ordering::Equal), low.partial_cmp(&low));

    let first = EnumMap::<Letter, u8, { Letter::SIZE }>::new_inspect(|key| match key {
        Letter::A => 2,
        Letter::B => 0,
    });
    let second = EnumMap::<Letter, u8, { Letter::SIZE }>::new_inspect(|key| match key {
        Letter::A => 1,
        Letter::B => 9,
    });
    assert!(second < first);
    assert_eq!(Some(std::cmp::Ordering::Greater), first.partial_cmp(&second));
    assert_eq!(Some(std::cmp::Ordering::Equal), first.partial_cmp(&first));
}

/// A value whose `Debug` implementation reports an error.
struct Unprintable;

impl std::fmt::Debug for Unprintable {
    fn fmt(&self, _f: &mut std::fmt::Formatter<'_>) -> std::fmt::Result {
        Err(std::fmt::Error)
    }
}

#[test]
fn dump_hands_on_a_formatting_error() {
    let table = EnumTable::<Letter, Unprintable>::from_fn(|_| Unprintable);
    assert_eq!(None, table.debug_string());
    let map = EnumMap::<Letter, Unprintable, { Letter::SIZE }>::new(|| Unprintable);
    assert_eq!(None, map.debug_string());
}

#[test]
fn present_pairs_leave_out_empty_slots() {
    let mut map = EnumMap::<Light, Option<i32>, { Light::SIZE }>::new_option();
    assert!(map.iter_kv_present().is_empty());
    map[Light::Green] = Some(3);
    map[Light::Red] = Some(1);
    let pairs = map.iter_kv_present();
    assert_eq!(vec![(Light::Red, &1), (Light::Green, &3)], pairs);
    map[Light::Amber] = Some(2);
    map[Light::Red] = None;
    assert_eq!(
        vec![(Light::Amber, &2), (Light::Green, &3)],
        map.iter_kv_present()
    );
}

#[test]
fn equality_of_optional_slots_is_presence_and_value() {
    let mut first = EnumMap::<Letter, Option<i32>, { Letter::SIZE }>::new_option();
    let mut second = EnumMap::<Letter, Option<i32>, { Letter::SIZE }>::new_option();
    assert!(first == second);
    first[Letter::A] = Some(1);
    assert!(first != second);
    second[Letter::A] = Some(2);
    assert!(first != second);
    second[Letter::A] = Some(1);
    assert!(first == second);
}

use charts::CategorisedValues;
use charts::ChartKey;
use charts::ChartValue;
use charts::SegmentedValue;

fn assert_output_eq<CAT, SEG, VAL>(categorised_values: CategorisedValues<CAT, SEG, VAL>, json_str: &str)
where
    CAT: ChartKey,
    SEG: ChartKey,
    VAL: ChartValue,
{
    assert_eq!(
        categorised_values
            .to_string()
            .replace("\n", "")
            .replace("\t", " "),
        String::from(json_str).replace("\n", "").replace("  ", " ")
    );
}

#[test]
fn empty_string_when_no_data() {
    assert_output_eq(CategorisedValues::<i8, i8, i32>::new(), "{}");
}

#[test]
fn categories_only() {
    assert_output_eq(
        CategorisedValues::new().add_data(vec![
            ("C", 10_u16).into(),
            ("B", 20).into(),
            ("A", 30).into(),
        ]),
        "{ C: 10, B: 20, A: 30 }",
    )
}

#[test]
fn histogram() {
    assert_output_eq(
        CategorisedValues::new().add_data(vec![
            "A".into(),
            "B".into(),
            "A".into(),
            "C".into(),
            "A".into(),
            "C".into(),
            "A".into(),
            "A".into(),
        ]),
        "{ A: 5, B: 1, C: 2 }",
    )
}

#[test]
fn ordered_categories_only() {
    assert_output_eq(
        CategorisedValues::new()
            .with_categories(vec!["B", "C", "A"])
            .add_data(vec![("C", 10_u16).into(), ("B", 20).into(), ("A", 30).into()]),
        "{ B: 20, C: 10, A: 30 }",
    );
}

#[test]
fn ordered_categories_with_multiple_entries() {
    assert_output_eq(
        CategorisedValues::new()
            .with_categories(vec!["A", "B", "C"])
            .add_data(vec![
                ("C", 10_u16).into(),
                ("B", 20).into(),
                ("A", 30).into(),
                ("A", 10).into(),
                ("B", 20).into(),
                ("C", 30).into(),
            ]),
        "{ A: 40, B: 40, C: 40 }",
    );
}

#[test]
fn categories_with_segments() {
    assert_output_eq(
        CategorisedValues::new().add_data(vec![
            ("C", 12_u32, 10_u16).into(),
            ("B", 10_u32, 20).into(),
            ("A", 11_u32, 30).into(),
        ]),
        "{ C: { 12: 10 }, B: { 10: 20 }, A: { 11: 30 } }",
    );
}

#[test]
fn categories_with_multiple_segments() {
    assert_output_eq(
        CategorisedValues::new().add_data(vec![
            ("A", "x", 11_u16).into(),
            ("B", "y", 13).into(),
            ("C", "z", 17).into(),
            ("A", "y", 19).into(),
            ("B", "z", 23).into(),
            ("C", "x", 29).into(),
            ("A", "z", 31).into(),
            ("B", "x", 37).into(),
            ("C", "y", 41).into(),
            ("A", "y", 43).into(),
        ]),
        "{ A: { x: 11, y: 62, z: 31 }, B: { x: 37, y: 13, z: 23 }, C: { x: 29, y: 41, z: 17 } }",
    );
}

#[test]
fn iterate_categories_and_segments() {
    let categorised = CategorisedValues::new()
        .with_categories((1970..2000_i16).collect::<Vec<i16>>())
        .with_segments(vec!["8 - Track", "LP/EP", "Cassette", "DVD Audio", "CD"])
        .add_data(vec![
            (1977_i16, "Cassette", 36_900_000_i32).into(),
            (1977, "8 - Track", 127_300_000).into(),
            (1979, "8 - Track", 102_300_000).into(),
            (1978, "8 - Track", 133_600_000).into(),
            (1978, "Cassette", 61_300_000).into(),
            (1979, "Cassette", 78_500_000).into(),
        ])
        .add_data(vec![
            (2000_i16, "CD", 942_500_000).into(),
            (2000, "DVD Audio", 1_000).into(),
            (2000, "Cassette", 76_000_000).into(),
            (2010, "DVD Audio", 40_000).into(),
            (2010, "CD", 253_000_000).into(),
        ]);

    let mut categories = categorised
        .categories()
        .iter()
        .map(|(index, category)| (categorised.category_index_to_label(*index), category));

    let (category_index, category) = categories.next().unwrap();
    assert_eq!(category.height(), 36_900_000 + 127_300_000);
    assert_eq!(*category_index, 1977);
    assert!(category.has_values());

    let mut segments_iter = category
        .values()
        .iter()
        .map(|(index, value)| (categorised.segment_index_to_label(*index), value));

    let (segment_label, segment_value) = segments_iter.next().unwrap();
    assert_eq!(*segment_value, 127_300_000);
    assert_eq!(*segment_label, "8 - Track");

    let (segment_label, segment_value) = segments_iter.next().unwrap();
    assert_eq!(*segment_value, 36_900_000);
    assert_eq!(*segment_label, "Cassette");

    assert_eq!(segments_iter.next(), None);

    let (category_index, category) = categories.next().unwrap();
    assert_eq!(category.height(), 133_600_000 + 61_300_000);
    assert_eq!(*category_index, 1978);
    assert!(category.has_values());
}

#[test]
fn iterate_frequencies() {
    let categorised = CategorisedValues::new()
        .with_categories(('a'..'z').collect::<Vec<char>>())
        .add_data(
            "hello world"
                .chars()
                .filter(|c| c.is_alphabetic())
                .map(|c| c.into())
                .collect::<Vec<_>>(),
        );

    let mut categories = categorised
        .categories()
        .iter()
        .map(|(index, category)| (categorised.category_index_to_label(*index), category));

    let (category_label, category) = categories.next().unwrap();
    assert_eq!(category.height(), 1);
    assert_eq!(*category_label, 'd');
    assert!(category.has_values());

    let (l, l_category) = categorised
        .categories()
        .iter()
        .skip(3)
        .map(|(index, category)| (categorised.category_index_to_label(*index), category))
        .next()
        .unwrap();
    assert_eq!(*l, 'l');
    assert_eq!(l_category.height(), 3);
    assert!(l_category.has_values());
}

#[test]
fn dbg() {
    let categorised = CategorisedValues::new()
        .with_categories(('a'..'z').collect::<Vec<char>>())
        .add_data(
            "hello world"
                .chars()
                .filter(|c| c.is_alphabetic())
                .map(|c| c.into())
                .collect::<Vec<_>>(),
        );

    println!("{}", categorised.to_string());
}

#[test]
fn to_string() {
    let categorised = CategorisedValues::new()
        .with_categories((1970..2000_i16).collect::<Vec<i16>>())
        .with_segments(vec!["8 - Track", "LP/EP", "Cassette", "DVD Audio", "CD"])
        .add_data(vec![
            (1977_i16, "Cassette", 36_900_000_i32).into(),
            (1977, "8 - Track", 127_300_000).into(),
            (1979, "8 - Track", 102_300_000).into(),
            (1978, "8 - Track", 133_600_000).into(),
            (1978, "Cassette", 61_300_000).into(),
            (1979, "Cassette", 78_500_000).into(),
        ])
        .add_data(vec![
            (2000_i16, "CD", 942_500_000).into(),
            (2000, "DVD Audio", 1_000).into(),
            (2000, "Cassette", 76_000_000).into(),
            (2010, "DVD Audio", 40_000).into(),
            (2010, "CD", 253_000_000).into(),
        ]);

    println!("{}", categorised.to_string());
}

#[test]
fn histogram_first_seen_order() {
    let categorised = CategorisedValues::new().add_data(
        "hello world"
            .chars()
            .filter(|c| c.is_alphabetic())
            .map(|c| c.into())
            .collect::<Vec<_>>(),
    );
    assert_output_eq(categorised, "{ h: 1, e: 1, l: 3, o: 2, w: 1, r: 1, d: 1 }");
}

#[test]
fn negative_category_keys_render_signed() {
    assert_output_eq(
        CategorisedValues::new().add_data(vec![(-5_i16, 3_u32).into(), (0, 1).into()]),
        "{ -5: 3, 0: 1 }",
    );
}

#[test]
fn full_rendering_with_segments() {
    let categorised = CategorisedValues::new().add_data(vec![
        ("C", 12_u32, 10_u16).into(),
        ("B", 10_u32, 20).into(),
        ("A", 11_u32, 30).into(),
    ]);
    assert_eq!(
        categorised.to_string(),
        "{\n\tC: { 12: 10 },\n\tB: { 10: 20 },\n\tA: { 11: 30 }\n }"
    );
}

#[test]
fn segmented_value_height_sums_all_additions() {
    let mut sv: SegmentedValue<u32> = SegmentedValue::new();
    assert!(!sv.has_values());
    sv.add(2, 5);
    sv.add(0, 7);
    sv.add(2, 11);
    assert!(sv.has_values());
    assert_eq!(sv.height(), 5 + 7 + 11);
    assert_eq!(sv.value_of_segment(0), Some(7));
    assert_eq!(sv.value_of_segment(2), Some(5 + 11));
    assert_eq!(sv.value_of_segment(1), None);
    let entries: Vec<(usize, u32)> = sv.values().clone();
    assert_eq!(entries, vec![(0, 7), (2, 16)]);
}

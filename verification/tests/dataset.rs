use mnist_digits::dataset::{
    decode, default_split, digit_as_vec_data, normalise, replace, split_and_normalise,
    train_validation_split, Example,
};
use mnist_digits::{Fixed, PipelineError};

fn fixed(value: f64) -> Fixed {
    Fixed { units: (value * 1e9).round() as i64 }
}

fn fixed_all(values: &[f64]) -> Vec<Fixed> {
    values.iter().map(|v| fixed(*v)).collect()
}

fn units(values: &[i64]) -> Vec<Fixed> {
    values.iter().map(|u| Fixed { units: *u }).collect()
}

fn numbered(count: i64) -> Vec<Example> {
    (0..count).map(|n| (units(&[n]), units(&[n + 100]))).collect()
}

#[test]
fn read_csv_digit_as_vec_data_test() {
    assert_eq!(
        digit_as_vec_data(fixed(9.)).unwrap(),
        fixed_all(&[0., 0., 0., 0., 0., 0., 0., 0., 0., 1.])
    );
}

#[test]
fn mnist_digits_digit_as_vec_data_test() {
    assert_eq!(
        digit_as_vec_data(fixed(9.)).unwrap(),
        fixed_all(&[0., 0., 0., 0., 0., 0., 0., 0., 0., 1.])
    );
}

#[test]
fn read_csv_replace_test() {
    let mut data = fixed_all(&[9., 0.2, 0.3, 0.1]);
    let replaced = replace(&mut data).unwrap();
    assert_eq!(
        replaced,
        (
            units(&[784_313, 1_176_470, 392_156]),
            fixed_all(&[0., 0., 0., 0., 0., 0., 0., 0., 0., 1.])
        )
    );
    println!("{:?}", data);
}

#[test]
fn mnist_digits_replace_test() {
    let mut data = fixed_all(&[9., 0.2, 0.3, 0.1]);
    let replaced = replace(&mut data).unwrap();
    assert_eq!(replaced.1, fixed_all(&[0., 0., 0., 0., 0., 0., 0., 0., 0., 1.]));
    assert_eq!(data, fixed_all(&[0.2, 0.3, 0.1]));
    println!("{:?}", data);
}

#[test]
fn read_csv_replace_several_test() {
    let mut data = vec![fixed_all(&[9., 0.2, 0.3, 0.1]), fixed_all(&[1., 0.4, 0.8, 0.3])];
    let replaced = split_and_normalise(&mut data).unwrap();
    let expected: Vec<Example> = vec![
        (
            units(&[784_313, 1_176_470, 392_156]),
            fixed_all(&[0., 0., 0., 0., 0., 0., 0., 0., 0., 1.]),
        ),
        (
            units(&[1_568_627, 3_137_254, 1_176_470]),
            fixed_all(&[0., 1., 0., 0., 0., 0., 0., 0., 0., 0.]),
        ),
    ];
    assert_eq!(replaced, expected);
}

#[test]
fn mnist_digits_replace_several_test() {
    let mut data = vec![fixed_all(&[9., 0.2, 0.3, 0.1]), fixed_all(&[1., 0.4, 0.8, 0.3])];
    let replaced: Vec<Example> = data.iter_mut().map(|row| replace(row).unwrap()).collect();
    let targets: Vec<Vec<Fixed>> = replaced.into_iter().map(|example| example.1).collect();
    assert_eq!(
        targets,
        vec![
            fixed_all(&[0., 0., 0., 0., 0., 0., 0., 0., 0., 1.]),
            fixed_all(&[0., 1., 0., 0., 0., 0., 0., 0., 0., 0.]),
        ]
    );
    assert_eq!(data, vec![fixed_all(&[0.2, 0.3, 0.1]), fixed_all(&[0.4, 0.8, 0.3])]);
}

#[test]
fn encode_takes_the_whole_range() {
    for (label, class) in [(0, 0usize), (999_999_999, 0), (1_000_000_000, 1), (4_500_000_000, 4),
        (9_000_000_000, 9), (9_900_000_000, 9)]
    {
        let encoded = digit_as_vec_data(Fixed { units: label }).unwrap();
        assert_eq!(encoded.len(), 10);
        for (place, entry) in encoded.iter().enumerate() {
            assert_eq!(entry.units, if place == class { 1_000_000_000 } else { 0 });
        }
    }
}

#[test]
fn encode_refuses_what_lies_outside() {
    assert_eq!(digit_as_vec_data(Fixed { units: -1 }), Err(PipelineError::OutOfRange));
    assert_eq!(digit_as_vec_data(Fixed { units: 9_900_000_001 }), Err(PipelineError::OutOfRange));
    assert_eq!(digit_as_vec_data(fixed(10.)), Err(PipelineError::OutOfRange));
    assert_eq!(digit_as_vec_data(fixed(-0.5)), Err(PipelineError::OutOfRange));
}

#[test]
fn decode_undoes_encode() {
    let mut label: i64 = 0;
    while label <= 9_900_000_000 {
        let encoded = digit_as_vec_data(Fixed { units: label }).unwrap();
        assert_eq!(decode(&encoded), Some((label / 1_000_000_000) as usize));
        label += 50_000_000;
    }
}

#[test]
fn decode_finds_the_first_largest_entry() {
    assert_eq!(decode(&units(&[])), None);
    assert_eq!(decode(&units(&[5])), Some(0));
    assert_eq!(decode(&units(&[1, 7, 7, 3])), Some(1));
    assert_eq!(decode(&units(&[-4, -9, -2])), Some(2));
}

#[test]
fn normalise_divides_by_255() {
    let row = units(&[0, 254, 255, 255_000_000_000, 128_000_000_000, -255, -256, -1, 510]);
    let scaled = normalise(&row);
    assert_eq!(scaled, units(&[0, 0, 1, 1_000_000_000, 501_960_784, -1, -1, 0, 2]));
    for (raw, value) in row.iter().zip(scaled.iter()) {
        assert_eq!(value.units, raw.units / 255);
    }
    assert_eq!(normalise(&units(&[])), units(&[]));
    assert_eq!(normalise(&fixed_all(&[300., -51.])), units(&[1_176_470_588, -200_000_000]));
}

#[test]
fn replace_refuses_a_row_without_label() {
    let mut row = units(&[]);
    assert_eq!(replace(&mut row), Err(PipelineError::ParseError));
    assert_eq!(row, units(&[]));
}

#[test]
fn replace_leaves_a_refused_row_alone() {
    let mut row = fixed_all(&[12., 0.5]);
    assert_eq!(replace(&mut row), Err(PipelineError::OutOfRange));
    assert_eq!(row, fixed_all(&[12., 0.5]));
}

#[test]
fn builder_reports_the_first_failure_and_touches_nothing() {
    let before =
        vec![fixed_all(&[3., 255.]), fixed_all(&[10., 1.]), units(&[]), fixed_all(&[2., 0.])];
    let mut data = before.clone();
    assert_eq!(split_and_normalise(&mut data), Err(PipelineError::OutOfRange));
    assert_eq!(data, before);
    let before = vec![fixed_all(&[3., 255.]), units(&[]), fixed_all(&[10., 1.])];
    let mut data = before.clone();
    assert_eq!(split_and_normalise(&mut data), Err(PipelineError::ParseError));
    assert_eq!(data, before);
}

#[test]
fn builder_keeps_the_order_of_the_rows() {
    let mut data = vec![fixed_all(&[3., 255., 0.]), fixed_all(&[0.]), fixed_all(&[9.9, 51.])];
    let examples = split_and_normalise(&mut data).unwrap();
    assert_eq!(examples.len(), 3);
    assert_eq!(examples[0].0, fixed_all(&[1., 0.]));
    assert_eq!(decode(&examples[0].1), Some(3));
    assert_eq!(examples[1].0, units(&[]));
    assert_eq!(decode(&examples[1].1), Some(0));
    assert_eq!(examples[2].0, fixed_all(&[0.2]));
    assert_eq!(decode(&examples[2].1), Some(9));
    assert_eq!(data, vec![fixed_all(&[255., 0.]), units(&[]), fixed_all(&[51.])]);
    let mut none: Vec<Vec<Fixed>> = vec![];
    assert_eq!(split_and_normalise(&mut none), Ok(vec![]));
}

#[test]
fn split_cuts_at_the_fraction_rounded_down() {
    assert_eq!(default_split(), fixed(0.6));
    for (len, cut) in [(1i64, 0usize), (2, 1), (3, 1), (4, 2), (5, 3), (10, 6), (11, 6), (42, 25)] {
        let dataset = numbered(len);
        let (train, validation) =
            train_validation_split(dataset.clone(), default_split()).unwrap();
        assert_eq!(train.len(), cut);
        assert_eq!(train.len() + validation.len(), dataset.len());
        assert_eq!(train[..], dataset[..cut]);
        assert_eq!(validation[..], dataset[cut..]);
    }
}

#[test]
fn split_takes_every_fraction_from_zero_to_one() {
    let dataset = numbered(7);
    let (train, validation) = train_validation_split(dataset.clone(), fixed(0.)).unwrap();
    assert_eq!((train.len(), validation.len()), (0, 7));
    assert_eq!(validation, dataset);
    let (train, validation) = train_validation_split(dataset.clone(), fixed(1.)).unwrap();
    assert_eq!((train.len(), validation.len()), (7, 0));
    assert_eq!(train, dataset);
    let (train, validation) = train_validation_split(dataset.clone(), fixed(0.5)).unwrap();
    assert_eq!((train.len(), validation.len()), (3, 4));
    let (train, _) = train_validation_split(dataset.clone(), Fixed { units: 999_999_999 }).unwrap();
    assert_eq!(train.len(), 6);
    let (train, _) = train_validation_split(dataset, Fixed { units: 142_857_143 }).unwrap();
    assert_eq!(train.len(), 1);
}

#[test]
fn split_refuses_an_empty_dataset_and_a_wild_fraction() {
    assert_eq!(train_validation_split(vec![], fixed(0.6)), Err(PipelineError::EmptyDataset));
    assert_eq!(train_validation_split(vec![], fixed(7.)), Err(PipelineError::EmptyDataset));
    assert_eq!(
        train_validation_split(numbered(3), Fixed { units: 1_000_000_001 }),
        Err(PipelineError::OutOfRange)
    );
    assert_eq!(
        train_validation_split(numbered(3), Fixed { units: -1 }),
        Err(PipelineError::OutOfRange)
    );
}

use gridfit::bits::F32;
use gridfit::export::{flush_outcome, record_outcome, write_to_csv, ExportError};
use gridfit::samples::SampleStore;
use gridfit::space::{ParameterAxis, SearchSpace};
use gridfit::error::{FitError, InputFault};
use gridfit::report::align;
use gridfit::transfer::{
    describe, download_errors, grid_bytes, interleave, result_buffer_size, sample_buffer_size,
    upload_bytes, workgroups,
};

fn f(v: f32) -> F32 {
    F32(v.to_bits())
}

fn store(xs: &[f32], ys: &[f32]) -> SampleStore {
    let xs = xs.iter().map(|v| f(*v)).collect();
    let ys = ys.iter().map(|v| f(*v)).collect();
    match SampleStore::new(xs, ys) {
        Ok(store) => store,
        Err(e) => panic!("{:?}", e),
    }
}

fn space_of(resolutions: &[u32]) -> SearchSpace {
    let axes = resolutions
        .iter()
        .map(|r| ParameterAxis { name: String::from("p"), min: f(0.0), max: f(1.0), resolution: *r })
        .collect();
    match SearchSpace::new(axes, u32::MAX) {
        Ok(space) => space,
        Err(e) => panic!("no space: {:?}", e),
    }
}

#[test]
fn interleave_alternates_x_and_y() {
    let words = interleave(&store(&[1.0, 2.0, 3.0], &[2.0, 4.0, 6.0]));
    let values: Vec<f32> = words.iter().map(|w| f32::from_bits(*w)).collect();
    assert_eq!(values, vec![1.0, 2.0, 2.0, 4.0, 3.0, 6.0]);
}

#[test]
fn upload_holds_the_samples_in_memory_order() {
    let bytes = upload_bytes(&store(&[1.0, 2.0, 3.0], &[2.0, 4.0, 6.0]));
    let mut expected = Vec::new();
    for v in [1.0f32, 2.0, 2.0, 4.0, 3.0, 6.0] {
        expected.extend_from_slice(&v.to_ne_bytes());
    }
    assert_eq!(bytes.len(), 24);
    assert_eq!(bytes, expected);
}

#[test]
fn grid_describes_every_axis() {
    let axes = vec![
        ParameterAxis { name: String::from("a"), min: f(0.0), max: f(100.0), resolution: 4096 },
        ParameterAxis { name: String::from("n"), min: f(-1.0), max: f(5.0), resolution: 512 },
    ];
    let space = match SearchSpace::new(axes, u32::MAX) {
        Ok(space) => space,
        Err(e) => panic!("{:?}", e),
    };
    assert_eq!(
        describe(&space),
        vec![0.0f32.to_bits(), 100.0f32.to_bits(), 4096, (-1.0f32).to_bits(), 5.0f32.to_bits(), 512]
    );
    let mut expected = Vec::new();
    expected.extend_from_slice(&0.0f32.to_ne_bytes());
    expected.extend_from_slice(&100.0f32.to_ne_bytes());
    expected.extend_from_slice(&4096u32.to_ne_bytes());
    expected.extend_from_slice(&(-1.0f32).to_ne_bytes());
    expected.extend_from_slice(&5.0f32.to_ne_bytes());
    expected.extend_from_slice(&512u32.to_ne_bytes());
    assert_eq!(grid_bytes(&space), expected);
}

#[test]
fn workers_and_flat_indices_agree() {
    let space = space_of(&[3, 4, 5]);
    let (x, y, z) = workgroups(&space, 100).unwrap();
    assert_eq!(x * y * z, space.total());
    for i in 0..x {
        for j in 0..y {
            for k in 0..z {
                assert_eq!(space.encode(&vec![i, j, k]), Some((i * y + j) * z + k));
            }
        }
    }
    let flat = space_of(&[6, 7]);
    let (x, y, z) = workgroups(&flat, 100).unwrap();
    assert_eq!(z, 1);
    for i in 0..x {
        for j in 0..y {
            assert_eq!(flat.encode(&vec![i, j]), Some(i * y + j));
        }
    }
}

#[test]
fn report_pairs_every_x_with_its_prediction() {
    let samples = store(&[1.0, 2.0, 3.0], &[2.0, 4.0, 6.0]);
    let predicted = vec![f(2.5), f(4.5), f(6.5)];
    assert_eq!(
        align(&samples, &predicted),
        Ok(vec![(f(1.0), f(2.5)), (f(2.0), f(4.5)), (f(3.0), f(6.5))])
    );
}

#[test]
fn report_wants_one_prediction_per_sample() {
    let samples = store(&[1.0, 2.0, 3.0], &[2.0, 4.0, 6.0]);
    assert_eq!(
        align(&samples, &vec![f(2.5)]),
        Err(FitError::InvalidInput(InputFault::LengthMismatch { x_len: 3, y_len: 1 }))
    );
    assert_eq!(
        align(&samples, &vec![]),
        Err(FitError::InvalidInput(InputFault::LengthMismatch { x_len: 3, y_len: 0 }))
    );
}

#[test]
fn download_reads_one_error_per_word() {
    let mut bytes = Vec::new();
    for v in [0.5f32, 0.0, 7.25, f32::MAX] {
        bytes.extend_from_slice(&v.to_ne_bytes());
    }
    let errors = download_errors(&bytes).unwrap();
    assert_eq!(errors, vec![f(0.5), f(0.0), f(7.25), f(f32::MAX)]);
    assert_eq!(download_errors(&vec![]), Some(vec![]));
}

#[test]
fn download_reads_words_at_any_address() {
    let mut padded = vec![0u8];
    for v in [1.0f32, -2.0] {
        padded.extend_from_slice(&v.to_ne_bytes());
    }
    let shifted = padded[1..].to_vec();
    assert_eq!(download_errors(&shifted), Some(vec![f(1.0), f(-2.0)]));
}

#[test]
fn download_refuses_a_broken_word() {
    assert_eq!(download_errors(&vec![0u8; 3]), None);
    assert_eq!(download_errors(&vec![0u8; 5]), None);
    assert_eq!(download_errors(&vec![0u8; 7]), None);
    assert_eq!(download_errors(&vec![0u8; 8]), Some(vec![F32(0), F32(0)]));
}

#[test]
fn upload_and_download_are_inverse() {
    let samples = store(&[1.5, -2.5, 1.0e-10], &[f32::MAX, 0.0, -0.0]);
    let words = interleave(&samples);
    let back = download_errors(&upload_bytes(&samples)).unwrap();
    let back_words: Vec<u32> = back.iter().map(|e| e.0).collect();
    assert_eq!(back_words, words);
}

#[test]
fn buffer_sizes() {
    assert_eq!(sample_buffer_size(0), None);
    assert_eq!(sample_buffer_size(1), Some(8));
    assert_eq!(sample_buffer_size(3), Some(24));
    assert_eq!(sample_buffer_size(1 << 20), Some(8 << 20));
    assert_eq!(result_buffer_size(0), 0);
    assert_eq!(result_buffer_size(2), 8);
    assert_eq!(result_buffer_size(16_777_216), 67_108_864);
    assert_eq!(result_buffer_size(u32::MAX), 4 * (u32::MAX as u64));
}

#[test]
fn workgroups_have_one_dimension_per_axis() {
    assert_eq!(workgroups(&space_of(&[4096, 4096]), 65_535), Some((4096, 4096, 1)));
    assert_eq!(workgroups(&space_of(&[7]), 65_535), Some((7, 1, 1)));
    assert_eq!(workgroups(&space_of(&[2, 3, 5]), 65_535), Some((2, 3, 5)));
    assert_eq!(workgroups(&space_of(&[5, 5]), 5), Some((5, 5, 1)));
}

#[test]
fn workgroups_respect_the_limit_of_a_dimension() {
    assert_eq!(workgroups(&space_of(&[65_536]), 65_535), None);
    assert_eq!(workgroups(&space_of(&[2, 6]), 5), None);
    assert_eq!(workgroups(&space_of(&[1, 1, 1]), 0), None);
}

fn texts(values: &[f32]) -> Vec<String> {
    values.iter().map(|v| v.to_string()).collect()
}

#[test]
fn table_has_one_record_per_row_and_no_header() {
    let bytes = write_to_csv(&texts(&[1.0, 2.0, 3.0]), &texts(&[2.0, 4.0, 6.5])).unwrap();
    assert_eq!(String::from_utf8(bytes).unwrap(), "1,2\n2,4\n3,6.5\n");
}

#[test]
fn table_stops_at_the_shorter_column() {
    let bytes = write_to_csv(&texts(&[1.0, 2.0, 3.0]), &texts(&[0.25])).unwrap();
    assert_eq!(String::from_utf8(bytes).unwrap(), "1,0.25\n");
    assert_eq!(write_to_csv(&vec![], &texts(&[1.0])), Ok(vec![]));
}

#[test]
fn plain_fields_are_written_as_they_are() {
    let xs = vec![String::new(), String::new(), String::from("caf\u{e9} 1"), String::from(" a b ")];
    let ys = vec![String::new(), String::from("x"), String::from("#2"), String::from("'q'")];
    let bytes = write_to_csv(&xs, &ys).unwrap();
    let mut expected = Vec::new();
    for (x, y) in xs.iter().zip(ys.iter()) {
        expected.extend_from_slice(x.as_bytes());
        expected.push(b',');
        expected.extend_from_slice(y.as_bytes());
        expected.push(b'\n');
    }
    assert_eq!(bytes, expected);
}

#[test]
fn long_plain_fields_are_written_as_they_are() {
    let xs: Vec<String> = (0..40).map(|i| "x".repeat(1000 + i)).collect();
    let ys: Vec<String> = (0..40).map(|i| format!("{}", i as f32 * 0.5)).collect();
    let bytes = write_to_csv(&xs, &ys).unwrap();
    let mut expected = String::new();
    for (x, y) in xs.iter().zip(ys.iter()) {
        expected.push_str(x);
        expected.push(',');
        expected.push_str(y);
        expected.push('\n');
    }
    assert_eq!(String::from_utf8(bytes).unwrap(), expected);
}

#[test]
fn table_quotes_a_field_that_needs_it() {
    let xs = vec![
        String::from("a,b"),
        String::from("say \"x\""),
        String::from("two\nlines"),
        String::from("cr\r"),
        String::from("\""),
        String::from("\u{e9}\"\u{e9}"),
    ];
    let ys = vec![
        String::from("1"),
        String::from("2"),
        String::from("3"),
        String::from("4"),
        String::from("\"\""),
        String::from(",\",\n"),
    ];
    let bytes = write_to_csv(&xs, &ys).unwrap();
    assert_eq!(
        String::from_utf8(bytes).unwrap(),
        "\"a,b\",1\n\"say \"\"x\"\"\",2\n\"two\nlines\",3\n\"cr\r\",4\n\
         \"\"\"\",\"\"\"\"\"\"\n\"\u{e9}\"\"\u{e9}\",\",\"\",\n\"\n"
    );
}

#[test]
fn export_into_memory_always_succeeds() {
    assert_eq!(write_to_csv(&vec![], &vec![]), Ok(vec![]));
    let many: Vec<String> = (0..5000).map(|i| format!("{}", i)).collect();
    let bytes = write_to_csv(&many, &many).unwrap();
    let expected: String = (0..5000).map(|i| format!("{},{}\n", i, i)).collect();
    assert_eq!(String::from_utf8(bytes).unwrap(), expected);
}

#[test]
fn export_names_the_row_that_failed() {
    assert_eq!(record_outcome::<String>(4, Ok(())), Ok(()));
    assert_eq!(
        record_outcome(4, Err(String::from("full"))),
        Err(ExportError::Record { row: 4 })
    );
    assert_eq!(flush_outcome(Some(vec![1, 2])), Ok(vec![1, 2]));
    assert_eq!(flush_outcome(None), Err(ExportError::Flush));
}

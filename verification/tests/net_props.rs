use mnist::idx::parse_idx;
use mnist::matrix::MatError;
use mnist::nets::ffnet::{argmax, chunk_bounds};
use mnist::nets::{Activation, FFNet, Layer, Linear, Output, RELU};
use mnist::Matrix;

fn m(rows: usize, cols: usize, v: Vec<i64>) -> Matrix {
    Matrix::with_vec((rows, cols), v).unwrap()
}

fn layer(out: usize, into: usize, w: Vec<i64>, b: Vec<i64>) -> Layer<RELU> {
    Layer::with_params(m(out, into, w), m(out, 1, b), RELU {}).unwrap()
}

#[test]
fn argmax_first_max_wins() {
    let x = m(4, 1, vec![2, 9, 9, 1]);
    assert_eq!(argmax(&x), 1);
}

#[test]
fn argmax_of_a_single_element() {
    let x = m(1, 1, vec![-7]);
    assert_eq!(argmax(&x), 0);
}

#[test]
fn relu_value_and_derivative() {
    let r = RELU {};
    assert_eq!(r.f(5), 5);
    assert_eq!(r.f(-5), 0);
    assert_eq!(r.f(0), 0);
    assert_eq!(r.df(5), 1);
    assert_eq!(r.df(0), 1);
    assert_eq!(r.df(-5), 0);
}

#[test]
fn linear_output_derivative_is_the_difference() {
    let o = Linear {};
    let y_hat = m(3, 1, vec![5, 7, 9]);
    let y = m(3, 1, vec![1, 7, 10]);
    assert_eq!(o.df(&y_hat, &y).data(), &vec![4, 0, -1]);
}

#[test]
fn layer_with_params_checks_shapes() {
    let w = m(2, 2, vec![1, 2, 3, 4]);
    let b = m(3, 1, vec![0, 0, 0]);
    assert_eq!(
        Layer::with_params(w, b, RELU {}).err().unwrap(),
        MatError::ShapeMismatch
    );
}

#[test]
fn layer_prop_activates_then_transforms() {
    let l = layer(2, 2, vec![1, 2, 3, 4], vec![5, 6]);
    let x = m(2, 1, vec![-1, 2]);
    let y = l.prop(&x).unwrap();
    assert_eq!(y.data(), &vec![9, 14]);
    let bad = m(3, 1, vec![1, 2, 3]);
    assert_eq!(l.prop(&bad).unwrap_err(), MatError::ShapeMismatch);
}

#[test]
fn single_sample_gradients_are_exact() {
    let l = layer(2, 2, vec![1, 2, 3, 4], vec![5, 6]);
    let net = FFNet::new(vec![l], Vec::new(), 1).unwrap();
    let x = m(2, 1, vec![1, 2]);
    let y = m(2, 1, vec![10, 16]);
    let grads = net.grads_for_chunk(&vec![(x, y)]).unwrap();
    assert_eq!(grads.len(), 1);
    assert_eq!(grads[0].w.data(), &vec![0, 0, 1, 2]);
    assert_eq!(grads[0].bias().data(), &vec![0, 1]);
}

#[test]
fn accumulation_is_chunk_invariant() {
    let l0 = layer(2, 2, vec![1, -2, 3, 4], vec![1, 0]);
    let l1 = layer(2, 2, vec![2, 1, 0, -1], vec![0, 2]);
    let net = FFNet::new(vec![l0, l1], Vec::new(), 4).unwrap();
    let samples = vec![
        (m(2, 1, vec![1, 2]), m(2, 1, vec![1, 0])),
        (m(2, 1, vec![-3, 5]), m(2, 1, vec![0, 1])),
        (m(2, 1, vec![4, -1]), m(2, 1, vec![1, 0])),
    ];
    let whole = net.grads_for_chunk(&samples).unwrap();

    let chunk_a = vec![(samples[0].0.clone(), samples[0].1.clone())];
    let chunk_b = vec![
        (samples[1].0.clone(), samples[1].1.clone()),
        (samples[2].0.clone(), samples[2].1.clone()),
    ];
    let mut merged = net.grads_for_chunk(&chunk_a).unwrap();
    let part_b = net.grads_for_chunk(&chunk_b).unwrap();
    for i in 0..merged.len() {
        merged[i].absorb_params(&part_b[i]).unwrap();
    }
    for i in 0..whole.len() {
        assert_eq!(whole[i].w.data(), merged[i].w.data());
        assert_eq!(whole[i].bias().data(), merged[i].bias().data());
    }
}

#[test]
fn one_worker_and_four_workers_accumulate_alike() {
    let l0 = layer(2, 2, vec![1, -2, 3, 4], vec![1, 0]);
    let l1 = layer(2, 2, vec![2, 1, 0, -1], vec![0, 2]);
    let net = FFNet::new(vec![l0, l1], Vec::new(), 4).unwrap();
    let samples = vec![
        (m(2, 1, vec![1, 2]), m(2, 1, vec![1, 0])),
        (m(2, 1, vec![-3, 5]), m(2, 1, vec![0, 1])),
        (m(2, 1, vec![4, -1]), m(2, 1, vec![1, 0])),
        (m(2, 1, vec![0, 7]), m(2, 1, vec![0, 1])),
        (m(2, 1, vec![-2, -2]), m(2, 1, vec![1, 0])),
    ];
    let one_worker = net.grads_for_chunk(&samples).unwrap();

    let bounds = chunk_bounds(samples.len(), 4);
    assert_eq!(bounds, vec![0, 1, 2, 3, 5]);
    let mut merged = net
        .grads_for_chunk(&samples[bounds[0]..bounds[1]].to_vec())
        .unwrap();
    for w in 1..4 {
        let part = net
            .grads_for_chunk(&samples[bounds[w]..bounds[w + 1]].to_vec())
            .unwrap();
        for i in 0..merged.len() {
            merged[i].absorb_params(&part[i]).unwrap();
        }
    }
    for i in 0..one_worker.len() {
        assert_eq!(one_worker[i].w.data(), merged[i].w.data());
        assert_eq!(one_worker[i].bias().data(), merged[i].bias().data());
    }
}

#[test]
fn absorb_then_update_matches_the_sequential_path() {
    let batch = vec![(m(2, 1, vec![1, 2]), m(2, 1, vec![10, 16]))];

    let mut seq_net = FFNet::new(
        vec![layer(2, 2, vec![1, 2, 3, 4], vec![5, 6])],
        Vec::new(),
        1,
    )
    .unwrap();
    seq_net.update_with_batch(&batch).unwrap();
    seq_net.update_params(1, 1);

    let mut par_net = FFNet::new(
        vec![layer(2, 2, vec![1, 2, 3, 4], vec![5, 6])],
        Vec::new(),
        1,
    )
    .unwrap();
    let partial = par_net.grads_for_chunk(&batch).unwrap();
    par_net.absorb(&partial).unwrap();
    par_net.update_params(1, 1);

    assert_eq!(seq_net.layers[0].w.data(), &vec![1, 2, 2, 2]);
    assert_eq!(par_net.layers[0].w.data(), seq_net.layers[0].w.data());
    assert_eq!(par_net.layers[0].bias().data(), seq_net.layers[0].bias().data());
    assert_eq!(seq_net.layers[0].bias().data(), &vec![5, 5]);
}

#[test]
fn update_moves_each_weight_by_the_scaled_average() {
    let mut l = layer(2, 2, vec![10, 10, 10, 10], vec![10, 10]);
    let acc = layer(2, 2, vec![7, 7, 7, 7], vec![7, 7]);
    l.update(&acc, 2, 3).unwrap();
    assert_eq!(l.w.data(), &vec![1, 1, 1, 1]);
    assert_eq!(l.bias().data(), &vec![1, 1]);
}

#[test]
fn update_truncates_toward_zero_on_negative_gradients() {
    let mut l = layer(1, 1, vec![10], vec![10]);
    let acc = layer(1, 1, vec![-7], vec![-7]);
    l.update(&acc, 2, 3).unwrap();
    assert_eq!(l.w.data(), &vec![19]);
    assert_eq!(l.bias().data(), &vec![19]);
}

#[test]
fn update_shape_mismatch() {
    let mut l = layer(2, 2, vec![1, 1, 1, 1], vec![1, 1]);
    let acc = layer(1, 2, vec![1, 1], vec![1]);
    assert_eq!(l.update(&acc, 2, 3).unwrap_err(), MatError::ShapeMismatch);
}

#[test]
fn zero_out_resets_every_parameter() {
    let mut l = layer(2, 2, vec![1, 2, 3, 4], vec![5, 6]);
    l.zero_out();
    assert_eq!(l.w.data(), &vec![0, 0, 0, 0]);
    assert_eq!(l.bias().data(), &vec![0, 0]);
}

#[test]
fn net_rejects_a_broken_layer_chain() {
    let l0 = layer(3, 2, vec![1, 1, 1, 1, 1, 1], vec![0, 0, 0]);
    let l1 = layer(2, 2, vec![1, 1, 1, 1], vec![0, 0]);
    assert_eq!(
        FFNet::new(vec![l0, l1], Vec::new(), 1).err().unwrap(),
        MatError::ShapeMismatch
    );
}

#[test]
fn net_rejects_zero_workers_and_no_layers() {
    let l0 = layer(2, 2, vec![1, 1, 1, 1], vec![0, 0]);
    assert_eq!(
        FFNet::new(vec![l0], Vec::new(), 0).err().unwrap(),
        MatError::ShapeMismatch
    );
    assert_eq!(
        FFNet::new(Vec::new(), Vec::new(), 1).err().unwrap(),
        MatError::ShapeMismatch
    );
}

#[test]
fn test_reports_the_classification_accuracy() {
    let l = layer(2, 2, vec![1, 0, 0, 1], vec![0, 0]);
    let test_set = vec![
        (m(2, 1, vec![3, 1]), m(2, 1, vec![1, 0])),
        (m(2, 1, vec![1, 5]), m(2, 1, vec![1, 0])),
    ];
    let net = FFNet::new(vec![l], test_set, 1).unwrap();
    assert_eq!(net.test(), 50);
}

#[test]
fn train_rejects_an_empty_batch_or_training_set() {
    let l = layer(2, 2, vec![1, 0, 0, 1], vec![0, 0]);
    let mut net = FFNet::new(vec![l], Vec::new(), 1).unwrap();
    let x = m(2, 1, vec![1, 0]);
    let y = m(2, 1, vec![1, 0]);
    assert_eq!(
        net.train(0, 1, (vec![x.clone()], vec![y.clone()]), 1)
            .unwrap_err(),
        MatError::EmptyBatch
    );
    assert_eq!(
        net.train(2, 1, (Vec::new(), Vec::new()), 1).unwrap_err(),
        MatError::EmptyBatch
    );
    assert_eq!(
        net.train(2, 1, (vec![x], Vec::new()), 1).unwrap_err(),
        MatError::ShapeMismatch
    );
}

#[test]
fn train_runs_and_reports_accuracies() {
    let l = layer(2, 2, vec![1, 0, 0, 1], vec![0, 0]);
    let test_set = vec![(m(2, 1, vec![3, 1]), m(2, 1, vec![1, 0]))];
    let mut net = FFNet::new(vec![l], test_set, 2).unwrap();
    let xs = vec![m(2, 1, vec![1, 0]), m(2, 1, vec![0, 1])];
    let ys = vec![m(2, 1, vec![1, 0]), m(2, 1, vec![0, 1])];
    let accs = net.train(2, 1, (xs, ys), 7).unwrap();
    assert_eq!(accs.len(), 2);
    for a in accs {
        assert!(a <= 100);
    }
}

#[test]
fn parse_idx_decodes_labels_to_one_hot_columns() {
    let bytes = vec![0, 0, 8, 1, 0, 0, 0, 2, 3, 0];
    let ms = parse_idx(&bytes, 10).unwrap();
    assert_eq!(ms.len(), 2);
    assert_eq!(ms[0].dim(), (10, 1));
    assert_eq!(ms[0].data(), &vec![0, 0, 0, 1, 0, 0, 0, 0, 0, 0]);
    assert_eq!(ms[1].data(), &vec![1, 0, 0, 0, 0, 0, 0, 0, 0, 0]);
}

#[test]
fn parse_idx_caps_at_the_requested_count() {
    let bytes = vec![0, 0, 8, 1, 0, 0, 0, 3, 1, 2, 3];
    let ms = parse_idx(&bytes, 2).unwrap();
    assert_eq!(ms.len(), 2);
}

#[test]
fn parse_idx_decodes_images_to_flat_columns() {
    let bytes = vec![
        0, 0, 8, 3, 0, 0, 0, 2, 0, 0, 0, 2, 0, 0, 0, 2, 10, 20, 30, 40, 50, 60, 70, 80,
    ];
    let ms = parse_idx(&bytes, 10).unwrap();
    assert_eq!(ms.len(), 2);
    assert_eq!(ms[0].dim(), (4, 1));
    assert_eq!(ms[0].data(), &vec![10, 20, 30, 40]);
    assert_eq!(ms[1].data(), &vec![50, 60, 70, 80]);
}

#[test]
fn parse_idx_rejects_malformed_input() {
    assert_eq!(parse_idx(&vec![0, 0, 8], 1).unwrap_err(), MatError::DataLoad);
    assert_eq!(
        parse_idx(&vec![0, 0, 8, 2, 0, 0, 0, 0], 1).unwrap_err(),
        MatError::DataLoad
    );
    let bad_label = vec![0, 0, 8, 1, 0, 0, 0, 1, 10];
    assert_eq!(parse_idx(&bad_label, 1).unwrap_err(), MatError::DataLoad);
    let empty_image = vec![0, 0, 8, 3, 0, 0, 0, 1, 0, 0, 0, 0, 0, 0, 0, 2];
    assert_eq!(parse_idx(&empty_image, 1).unwrap_err(), MatError::DataLoad);
}

use kohonen::calc::metric::Metric;
use kohonen::calc::neighborhood::Neighborhood;
use kohonen::calc::nn;
use kohonen::data::DataFrame;
use kohonen::map::som::{DecayFunction, DecayParam, Layer, Search, Som, SomParams};
use kohonen::calc::norm::{LinearTransform, Norm};
use kohonen::num::Num;
use kohonen::proc::{InputLayer, Processor, ProcessorBuilder, Record};
use rand::{Rng, SeedableRng};

fn n(x: f64) -> Num {
    Num::from_bits(x.to_bits())
}

fn f(x: Num) -> f64 {
    f64::from_bits(x.to_bits())
}

fn row(values: &[f64]) -> Vec<Num> {
    values.iter().map(|x| n(*x)).collect()
}

fn lin(start: f64, end: f64) -> DecayParam {
    DecayParam::lin(n(start), n(end))
}

fn exp(start: f64, end: f64) -> DecayParam {
    DecayParam::exp(n(start), n(end)).unwrap()
}

/// The value of a schedule in an epoch.
fn get(p: &DecayParam, epoch: u32, max_epochs: u32) -> f64 {
    let (start, end) = (f(p.start()), f(p.end()));
    match p.function() {
        DecayFunction::Linear => {
            let frac = epoch as f64 / (max_epochs - 1) as f64;
            start + frac * (end - start)
        }
        DecayFunction::Exponential => {
            let rate = (1.0 / -((max_epochs - 1) as f64)) * (end / start).ln();
            start * (-rate * epoch as f64).exp()
        }
    }
}

fn weight(kernel: Neighborhood, d: f64) -> f64 {
    if let Some(w) = kernel.edge_weight(n(d)) {
        return f(w);
    }
    match kernel {
        Neighborhood::Gauss => (-0.5 * d * d).exp(),
        Neighborhood::Triangular => 1.0 - d,
        Neighborhood::Epanechnikov => 1.0 - d * d,
        Neighborhood::Quartic => (1.0 - d * d).powi(2),
        Neighborhood::Triweight => (1.0 - d * d).powi(3),
    }
}

fn sq_euclidean(a: &[Num], b: &[Num]) -> f64 {
    let mut sum = 0.0;
    for (x, y) in a.iter().zip(b) {
        let (x, y) = (f(*x), f(*y));
        if !(x.is_nan() || y.is_nan()) {
            sum += (x - y).powi(2);
        }
    }
    sum
}

fn tanimoto(a: &[Num], b: &[Num]) -> f64 {
    let (differ, compared) = Metric::tanimoto_counts(a, b);
    differ as f64 / compared as f64
}

/// The distance of a sample to each unit, as the map's layers ask.
fn distances(som: &Som, sample: &[Num]) -> Vec<Num> {
    let params = som.params();
    let rows = som.weights().iter_rows();
    match params.search() {
        Search::Euclidean => rows.iter().map(|r| n(sq_euclidean(sample, r))).collect(),
        Search::Tanimoto => rows.iter().map(|r| n(tanimoto(sample, r))).collect(),
        Search::Xyf => rows
            .iter()
            .map(|r| {
                let mut dist = 0.0;
                for (i, layer) in params.layers().iter().enumerate() {
                    let (start, end) = params.layer_range(i);
                    let d = if layer.categorical() {
                        tanimoto(&sample[start..end], &r[start..end])
                    } else {
                        sq_euclidean(&sample[start..end], &r[start..end]).sqrt()
                    };
                    if !d.is_nan() {
                        dist += d * f(layer.weight());
                    }
                }
                n(dist)
            })
            .collect(),
    }
}

/// The greatest squared grid distance whose root is at most `radius`.
fn limit(radius: f64) -> u64 {
    if !(radius >= 0.0) {
        return 0;
    }
    let mut l = (radius * radius).floor() as u64;
    while (l as f64).sqrt() > radius {
        l -= 1;
    }
    while ((l + 1) as f64).sqrt() <= radius {
        l += 1;
    }
    l
}

fn train(som: &mut Som, sample: &[Num]) -> (usize, Vec<usize>) {
    let (nearest, _) = nn::nearest_neighbor(&distances(som, sample));
    let params = som.params();
    let alpha = get(&params.alpha(), som.epochs_done(), params.epochs());
    let radius = get(&params.radius(), som.epochs_done(), params.epochs());
    let kernel = params.neighborhood();
    let search_rad = radius * f(kernel.radius());
    let lim = limit(search_rad);
    let units = som.neighborhood(nearest, lim);
    let moved: Vec<Vec<Num>> = units
        .iter()
        .map(|u| {
            let dist = (som.grid_distance_sq(nearest, *u) as f64).sqrt();
            let w = weight(kernel, dist / radius);
            let (r, c) = som.to_row_col(*u);
            som.weights_at(r, c)
                .iter()
                .zip(sample)
                .map(|(v, s)| {
                    let (v, s) = (f(*v), f(*s));
                    n(v + w * alpha * (s - v))
                })
                .collect()
        })
        .collect();
    som.train(sample, nearest, lim, &moved);
    (nearest, units)
}

fn means(df: &DataFrame) -> Vec<f64> {
    let mut sums = vec![0.0; df.ncols()];
    for r in df.iter_rows() {
        for (c, v) in r.iter().enumerate() {
            if !v.is_nan() {
                sums[c] += f(*v);
            }
        }
    }
    sums.iter().zip(df.counts()).map(|(s, c)| s / c as f64).collect()
}

fn epoch(som: &mut Som, samples: &DataFrame, count: Option<usize>) -> Option<()> {
    let order = som.epoch(samples.nrows(), count)?;
    for idx in order {
        let sample = samples.get_row(idx).to_vec();
        train(som, &sample);
    }
    let m = means(som.weights());
    let decay = get(&som.params().decay(), som.epochs_done(), som.params().epochs());
    let cols = som.dims();
    let decayed: Vec<Num> = som
        .weights()
        .data()
        .iter()
        .enumerate()
        .map(|(i, v)| {
            let v = f(*v);
            n(v - decay * (v - m[i % cols]))
        })
        .collect();
    som.finish_epoch(&decayed);
    Some(())
}

fn randomize(som: &mut Som) {
    let mut rng = rand::thread_rng();
    let values: Vec<Num> = (0..som.weights().data().len())
        .map(|_| n(rng.gen_range(0.0, 1.0)))
        .collect();
    som.init_weights(&values);
}

fn simple(epochs: u32, radius: DecayParam, decay: DecayParam) -> SomParams {
    SomParams::simple(epochs, Neighborhood::Gauss, lin(0.2, 0.01), radius, decay).unwrap()
}

#[test]
fn create_som() {
    let params = simple(100, lin(1.0, 0.5), lin(0.2, 0.001));
    let som = Som::new(&["A", "B", "C"], 3, 3, params);
    assert_eq!(som.grid_distance_sq(0, 8), 8);
    assert_eq!((som.grid_distance_sq(0, 8) as f64).sqrt(), 8.0_f64.sqrt());
}

#[test]
fn train_step() {
    let params = simple(100, lin(1.0, 0.5), lin(0.2, 0.001));
    let mut som = Som::new(&["A", "B", "C"], 4, 4, params);
    randomize(&mut som);

    train(&mut som, &row(&[1.0, 1.0, 1.0]));
}

#[test]
fn train_epoch() {
    let cols = ["A", "B", "C", "D", "E"];
    let params = simple(10, lin(5.0, 0.5), exp(0.2, 0.001));
    let mut som = Som::new(&cols, 16, 16, params);
    randomize(&mut som);

    let mut rng = rand::thread_rng();
    let mut data = DataFrame::empty(&cols);

    for _i in 0..100 {
        data.push_row(&row(&[
            rng.gen_range(0.7, 0.8),
            rng.gen_range(0.0, 1.0),
            rng.gen_range(0.0, 1.0),
            rng.gen_range(0.0, 1.0),
            rng.gen_range(0.0, 1.0),
        ]));
    }

    let mut epochs = 0;
    while let Some(()) = epoch(&mut som, &data, None) {
        epochs += 1;
        assert_eq!(som.epochs_done(), epochs);
        assert_eq!(som.weights().nrows(), 256);
        assert_eq!(som.weights().ncols(), 5);
    }
    assert_eq!(epochs, 10);
    assert!(som.is_done());
    assert_eq!(som.epoch(100, None), None);
    assert_eq!(som.epochs_done(), 10);
}

#[test]
fn linear_decay() {
    let decay = lin(1.0, 0.1);

    assert!((get(&decay, 0, 100) - 1.0).abs() < 0.0001);
    assert!((get(&decay, 99, 100) - 0.1).abs() < 0.0001);
}

#[test]
fn exponential_decay() {
    let decay = exp(1.0, 0.01);

    assert!((get(&decay, 0, 100) - 1.0).abs() < 0.0001);
    assert!((get(&decay, 99, 100) - 0.01).abs() < 0.0001);
}

#[test]
fn exponential_decay_needs_values_above_zero() {
    assert!(DecayParam::exp(n(1.0), n(0.01)).is_ok());
    for (a, b) in [(0.0, 1.0), (1.0, 0.0), (-1.0, 1.0), (1.0, -0.5), (f64::NAN, 1.0), (-0.0, 1.0)].iter() {
        let err = DecayParam::exp(n(*a), n(*b)).unwrap_err();
        assert_eq!(
            err.to_string(),
            "An exponential decay needs a start and an end value above zero"
        );
        assert!(DecayParam::new(n(*a), n(*b), DecayFunction::Exponential).is_err());
        assert!(DecayParam::new(n(*a), n(*b), DecayFunction::Linear).is_ok());
    }
    let p = DecayParam::new(n(2.0), n(1.0), DecayFunction::Exponential).unwrap();
    assert_eq!((f(p.start()), f(p.end()), p.function()), (2.0, 1.0, DecayFunction::Exponential));
    assert!(!p.is_constant());
    assert!(lin(0.5, 0.5).is_constant());
    assert!(lin(0.0, -0.0).is_constant());
    assert!(!lin(f64::NAN, f64::NAN).is_constant());
}

#[test]
fn decay_functions_are_named() {
    assert_eq!(DecayFunction::from_string("lin"), Ok(DecayFunction::Linear));
    assert_eq!("exp".parse::<DecayFunction>(), Ok(DecayFunction::Exponential));
    let err = DecayFunction::from_string("log").unwrap_err();
    assert_eq!(err.to_string(), "Not a decay function: log. Must be one of (lin|exp)");
}

#[test]
fn a_changing_schedule_needs_two_epochs() {
    let err = SomParams::simple(1, Neighborhood::Gauss, lin(0.2, 0.01), lin(1.0, 1.0), lin(0.1, 0.1))
        .unwrap_err();
    assert_eq!(err.to_string(), "A schedule that changes needs at least two epochs");
    assert!(SomParams::simple(1, Neighborhood::Gauss, lin(0.2, 0.2), lin(1.0, 1.0), lin(0.1, 0.1)).is_ok());
    assert!(SomParams::simple(2, Neighborhood::Gauss, lin(0.2, 0.01), lin(1.0, 0.5), lin(0.1, 0.0)).is_ok());
    assert!(SomParams::xyf(1, Neighborhood::Quartic, lin(0.2, 0.2), lin(1.0, 0.9), lin(0.1, 0.1), vec![]).is_err());
}

#[test]
fn layers_start_where_the_layers_before_end() {
    let layers = vec![Layer::cont(3, n(0.5)), Layer::cat(2, n(0.25)), Layer::cont(4, n(0.25))];
    let params =
        SomParams::xyf(5, Neighborhood::Gauss, lin(0.2, 0.01), lin(1.0, 0.5), lin(0.1, 0.0), layers).unwrap();
    assert_eq!(params.start_columns(), &[0, 3, 5][..]);
    assert_eq!(params.layer_range(0), (0, 3));
    assert_eq!(params.layer_range(1), (3, 5));
    assert_eq!(params.layer_range(2), (5, 9));
    assert_eq!(params.layers().len(), 3);
    assert_eq!(params.layers()[1].metric(), &Metric::Tanimoto);
    assert_eq!(params.layers()[0].metric(), &Metric::Euclidean);
    assert!(params.layers()[1].categorical());
    assert_eq!(params.layers()[2].ncols(), 4);
    assert_eq!(f(params.layers()[0].weight()), 0.5);
    assert_eq!(params.search(), Search::Xyf);
    assert_eq!(params.epochs(), 5);
    assert_eq!(params.neighborhood(), Neighborhood::Gauss);

    let flat = simple(3, lin(1.0, 0.5), lin(0.1, 0.0));
    assert_eq!(flat.start_columns(), &[0][..]);
    assert_eq!(flat.layers().len(), 0);
    assert_eq!(flat.search(), Search::Euclidean);
    let one = |layer| {
        SomParams::xyf(5, Neighborhood::Gauss, lin(0.2, 0.01), lin(1.0, 0.5), lin(0.1, 0.0), vec![layer])
            .unwrap()
            .search()
    };
    assert_eq!(one(Layer::cat(3, n(1.0))), Search::Tanimoto);
    assert_eq!(one(Layer::cont(3, n(1.0))), Search::Euclidean);
}

#[test]
fn grid_distance_is_symmetric() {
    let som = Som::new(&["A"], 4, 5, simple(3, lin(1.0, 0.5), lin(0.1, 0.0)));
    for a in 0..20 {
        assert_eq!(som.grid_distance_sq(a, a), 0);
        for b in 0..20 {
            assert_eq!(som.grid_distance_sq(a, b), som.grid_distance_sq(b, a));
            let (ra, ca) = som.to_row_col(a);
            let (rb, cb) = som.to_row_col(b);
            let dr = ra as i64 - rb as i64;
            let dc = ca as i64 - cb as i64;
            assert_eq!(som.grid_distance_sq(a, b) as i64, dr * dr + dc * dc);
        }
    }
    assert_eq!(som.size(), (4, 5));
    assert_eq!((som.nrows(), som.ncols(), som.dims()), (4, 5, 1));
    assert_eq!(som.to_row_col(13), (2, 3));
    assert_eq!(som.to_index(2, 3), 13);
}

#[test]
fn neighborhood_is_the_ball() {
    let som = Som::new(&["A"], 6, 7, simple(3, lin(1.0, 0.5), lin(0.1, 0.0)));
    for center in [0usize, 6, 17, 24, 41].iter() {
        for lim in [0u64, 1, 2, 3, 4, 5, 8, 9, 24, 25, 36, 61, 1000, u64::MAX].iter() {
            let want: Vec<usize> =
                (0..42).filter(|u| som.grid_distance_sq(*center, *u) <= *lim).collect();
            assert_eq!(som.neighborhood(*center, *lim), want);
        }
    }
    assert_eq!(som.neighborhood(24, 1), vec![17, 23, 24, 25, 31]);
    assert_eq!(som.neighborhood(0, 2), vec![0, 1, 7, 8]);
}

#[test]
fn training_leaves_far_units_alone() {
    let params = SomParams::simple(10, Neighborhood::Triangular, lin(0.5, 0.1), lin(2.0, 1.0), lin(0.0, 0.0))
        .unwrap();
    let mut som = Som::new(&["A", "B"], 8, 8, params);
    randomize(&mut som);
    let before = som.weights().clone();
    let sample = row(&[0.3, f64::NAN]);
    let (nearest, units) = train(&mut som, &sample);
    assert_eq!(units, som.neighborhood(nearest, 4));
    assert!(units.contains(&nearest));
    let mut moved = 0;
    for u in 0..64 {
        let (old, new) = (before.get_row(u), som.weights().get_row(u));
        assert_eq!(old[1], new[1]);
        if som.grid_distance_sq(nearest, u) > 4 {
            assert_eq!(old, new);
        } else if old[0] != new[0] {
            moved += 1;
            assert!((f(new[0]) - 0.3).abs() < (f(old[0]) - 0.3).abs());
        }
    }
    assert!(moved >= 1);
    assert_eq!(som.epochs_done(), 0);
}

#[test]
fn one_unit_is_adapted() {
    let mut som = Som::new(&["A", "B", "C"], 2, 2, simple(3, lin(1.0, 0.5), lin(0.1, 0.0)));
    som.init_weights(&row(&[1.0, 2.0, 3.0, 4.0, 5.0, 6.0, 7.0, 8.0, 9.0, 10.0, 11.0, 12.0]));
    som.adapt(2, &row(&[0.0, f64::NAN, 0.0]), &row(&[70.0, 80.0, 90.0]));
    assert_eq!(
        som.weights().data(),
        &row(&[1.0, 2.0, 3.0, 4.0, 5.0, 6.0, 70.0, 8.0, 90.0, 10.0, 11.0, 12.0])[..]
    );
    assert_eq!(som.weights_at(1, 0), &row(&[70.0, 8.0, 90.0])[..]);
    assert_eq!(som.weights().names(), &["A".to_string(), "B".to_string(), "C".to_string()][..]);
}

#[test]
fn a_new_map_is_all_zero() {
    let som = Som::new(&["A", "B"], 3, 2, simple(3, lin(1.0, 0.5), lin(0.1, 0.0)));
    assert_eq!(som.weights().nrows(), 6);
    assert_eq!(som.weights().ncols(), 2);
    assert!(som.weights().data().iter().all(|v| *v == n(0.0)));
    assert_eq!(som.epochs_done(), 0);
    assert!(!som.is_done());
    assert_eq!(som.seed(), None);
    assert_eq!(som.params().epochs(), 3);
}

#[test]
fn an_epoch_draws_each_sample_once() {
    let som = Som::new(&["A"], 2, 2, simple(3, lin(1.0, 0.5), lin(0.1, 0.0)));
    let mut order = som.epoch(100, None).unwrap();
    assert_eq!(order.len(), 100);
    let identity: Vec<usize> = (0..100).collect();
    assert_ne!(order, identity);
    order.sort();
    assert_eq!(order, identity);

    let mut part = som.epoch(100, Some(10)).unwrap();
    assert_eq!(part.len(), 10);
    part.sort();
    part.dedup();
    assert_eq!(part.len(), 10);
    assert!(part.iter().all(|i| *i < 100));

    assert_eq!(som.epoch(5, Some(9)).unwrap().len(), 5);
    assert_eq!(som.epoch(0, None).unwrap().len(), 0);
    assert_eq!(som.epoch(7, Some(0)).unwrap().len(), 0);
}

#[test]
fn a_seed_repeats_the_order() {
    let make = || Som::new(&["A"], 2, 2, simple(3, lin(1.0, 0.5), lin(0.1, 0.0))).with_seed(42);
    let (mut a, b) = (make(), make());
    assert_eq!(a.seed(), Some(42));
    let first = a.epoch(50, None).unwrap();
    assert_eq!(first, b.epoch(50, None).unwrap());
    a.finish_epoch(&row(&[0.0; 4]));
    assert_eq!(a.epochs_done(), 1);
    let second = a.epoch(50, None).unwrap();
    assert_ne!(first, second);
}

#[test]
fn epochs_end() {
    let mut som = Som::new(&["A"], 1, 2, simple(2, lin(1.0, 0.5), lin(0.1, 0.0)));
    assert!(som.epoch(3, None).is_some());
    som.finish_epoch(&row(&[1.0, 2.0]));
    assert_eq!(som.weights().data(), &row(&[1.0, 2.0])[..]);
    assert!(som.epoch(3, None).is_some());
    som.finish_epoch(&row(&[3.0, 4.0]));
    assert!(som.is_done());
    assert_eq!(som.epoch(3, None), None);
    assert_eq!(som.epoch(3, Some(1)), None);
    assert_eq!(som.epochs_done(), 2);
    assert_eq!(som.weights().data(), &row(&[3.0, 4.0])[..]);
}

#[test]
fn a_missing_column_keeps_its_weights() {
    let cols = ["A", "B"];
    let params = simple(5, lin(2.0, 0.5), lin(0.0, 0.0));
    let mut som = Som::new(&cols, 4, 4, params);
    randomize(&mut som);
    let before = som.weights().copy_column(1);
    let mut data = DataFrame::empty(&cols);
    let mut rng = rand::thread_rng();
    for _ in 0..20 {
        data.push_row(&row(&[rng.gen_range(0.0, 1.0), f64::NAN]));
    }
    let ranges = data.ranges();
    assert!(ranges[1].0.is_nan() && ranges[1].1.is_nan());
    while let Some(()) = epoch(&mut som, &data, None) {}
    assert!(som.is_done());
    assert_eq!(som.weights().copy_column(1), before);
}

/// Normalizes a table: the normalized table, and for each column the
/// transform that takes the normalization back.
fn normalize(data: &DataFrame, norm: &[Norm], scale: &[Num]) -> (DataFrame, Vec<LinearTransform>) {
    let ranges = data.ranges();
    let mut forward = vec![];
    for c in 0..data.ncols() {
        let column: Vec<f64> = data.copy_column(c).iter().map(|v| f(*v)).filter(|v| !v.is_nan()).collect();
        let scale = f(scale[c]);
        let (sc, off) = match norm[c] {
            Norm::Unit => {
                if Norm::is_degenerate(ranges[c]) {
                    (1.0, 0.0)
                } else {
                    let (min, max) = (f(ranges[c].0), f(ranges[c].1));
                    let sc = scale / (max - min);
                    (sc, -min * sc)
                }
            }
            Norm::Gauss => {
                let count = column.len() as f64;
                let sum: f64 = column.iter().sum();
                let squares: f64 = column.iter().map(|v| v * v).sum();
                let sd = ((count * squares - sum * sum) / (count * (count - 1.0))).sqrt();
                let mean = sum / count;
                let sc = scale / (2.0 * sd);
                (sc, -(mean - sd) * sc)
            }
            Norm::Plain => (scale, 0.0),
        };
        forward.push((sc, off));
    }
    let names: Vec<&str> = data.names().iter().map(|s| &**s).collect();
    let mut df = DataFrame::empty(&names);
    for r in data.iter_rows() {
        let cells: Vec<Num> = r.iter().zip(&forward).map(|(v, (sc, off))| n(f(*v) * sc + off)).collect();
        df.push_row(&cells);
    }
    let denorm = forward.iter().map(|(sc, off)| LinearTransform::new(n(1.0 / sc), n(-off / sc))).collect();
    (df, denorm)
}

fn build(layers: &[InputLayer], header: &[&str], rows: &[Vec<String>]) -> Processor {
    let header: Vec<String> = header.iter().map(|s| s.to_string()).collect();
    let records: Vec<Record> = rows
        .iter()
        .map(|cells| Record {
            cells: cells.clone(),
            numbers: cells.iter().map(|c| c.parse::<f64>().ok().map(n)).collect(),
        })
        .collect();
    let proc = ProcessorBuilder::new(layers, &vec![], &None, &None)
        .build_from_records(&header, &records)
        .unwrap();
    let (data, denorm) = normalize(proc.data(), proc.norm(), proc.scale());
    let total: f64 = proc.layers().iter().map(|l| f(l.weight())).sum();
    let weights: Vec<Num> = proc.layers().iter().map(|l| n(f(l.weight()) / total)).collect();
    proc.normalized(data, denorm, &weights)
}

fn seeded(som: Som, seed: u64) -> Som {
    let mut som = som.with_seed(seed);
    let mut rng = rand::rngs::StdRng::seed_from_u64(seed);
    let values: Vec<Num> = (0..som.weights().data().len())
        .map(|_| n(rng.gen_range(0.0, 1.0)))
        .collect();
    som.init_weights(&values);
    som
}

#[test]
fn normalization_is_taken_back() {
    let mut rng = rand::rngs::StdRng::seed_from_u64(3);
    let mut data = DataFrame::empty(&["A", "B", "C", "D"]);
    for _ in 0..20 {
        data.push_row(&row(&[
            rng.gen_range(-1.0, 5.0),
            rng.gen_range(-3.0, 5.0),
            rng.gen_range(-1.0, 1.0),
            4.0,
        ]));
    }
    let norm = [Norm::Unit, Norm::Gauss, Norm::Plain, Norm::Unit];
    let (df, denorm) = normalize(&data, &norm, &row(&[1.0, 1.0, 0.5, 1.0]));
    assert_eq!((df.nrows(), df.ncols()), (data.nrows(), data.ncols()));
    let ranges = df.ranges();
    assert!(f(ranges[0].0).abs() < 1e-9);
    assert!((f(ranges[0].1) - 1.0).abs() < 1e-9);
    assert_eq!((f(ranges[3].0), f(ranges[3].1)), (4.0, 4.0));
    let m = means(&df);
    assert!((m[1] - 0.5).abs() < 1e-9);
    for (a, b) in data.iter_rows().iter().zip(df.iter_rows()) {
        for ((x, y), t) in a.iter().zip(b).zip(&denorm) {
            let back = f(*y) * f(t.scale) + f(t.offset);
            assert!((f(*x) - back).abs() < 1e-10);
        }
    }
}

#[test]
fn classes_of_an_iris_like_table_are_found() {
    let mut rng = rand::rngs::StdRng::seed_from_u64(7);
    let kinds = [
        ("setosa", [5.0, 3.4, 1.5, 0.2]),
        ("versicolor", [5.9, 2.8, 4.3, 1.3]),
        ("virginica", [6.6, 3.0, 5.6, 2.0]),
    ];
    let mut rows = vec![];
    for i in 0..150 {
        let (name, center) = kinds[i % 3];
        let mut cells: Vec<String> =
            center.iter().map(|c: &f64| (c + rng.gen_range(-0.3, 0.3)).to_string()).collect();
        cells.push(name.to_string());
        rows.push(cells);
    }
    let layers = vec![
        InputLayer::cont_simple(&["sepal_length", "sepal_width", "petal_length", "petal_width"]),
        InputLayer::cat_simple("species"),
    ];
    let header = ["sepal_length", "sepal_width", "petal_length", "petal_width", "species"];
    let proc = build(&layers, &header, &rows);
    assert_eq!((proc.data().nrows(), proc.data().ncols()), (150, 7));
    assert_eq!(f(proc.layers()[0].weight()), 0.5);

    let som = proc
        .create_som(
            8,
            10,
            40,
            Neighborhood::Gauss,
            lin(0.2, 0.01),
            lin(4.0, 0.5),
            exp(0.2, 0.001),
        )
        .unwrap();
    let mut som = seeded(som, 11);
    while let Some(()) = epoch(&mut som, proc.data(), None) {}
    assert!(som.is_done());
    assert_eq!((som.weights().nrows(), som.weights().ncols()), (80, 7));

    let names: Vec<String> = (0..80).map(|i| i.to_string()).collect();
    let names: Vec<&str> = names.iter().map(|s| &**s).collect();
    let mut dist = DataFrame::empty(&names);
    for sample in proc.data().iter_rows() {
        dist.push_row(&distances(&som, sample));
    }
    let nearest = proc.nearest_unit(&som, &dist);
    assert_eq!(nearest.len(), proc.data().nrows());
    let (_, units) = proc.to_class(som.weights(), 1).unwrap();
    let (name, wanted) = proc.to_class(proc.data(), 1).unwrap();
    assert_eq!(name, "species");
    let hits = nearest.iter().zip(&wanted).filter(|((unit, _), class)| &&units[*unit] == class).count();
    assert!(hits * 10 >= 150 * 8, "{} of 150", hits);
}

#[test]
fn classes_are_decoded_in_their_shares() {
    let mut rows = vec![];
    for i in 0..100 {
        let class = if i % 10 < 5 {
            "a"
        } else if i % 10 < 8 {
            "b"
        } else {
            "c"
        };
        rows.push(vec![class.to_string()]);
    }
    let proc = build(&[InputLayer::cat_simple("kind")], &["kind"], &rows);
    assert_eq!(proc.data().ncols(), 3);
    let som = proc
        .create_som(
            8,
            8,
            20,
            Neighborhood::Epanechnikov,
            lin(0.05, 0.01),
            lin(1.0, 1.0),
            exp(0.2, 0.001),
        )
        .unwrap();
    assert_eq!(som.params().search(), Search::Tanimoto);
    let mut som = seeded(som, 5);
    while let Some(()) = epoch(&mut som, proc.data(), None) {}
    let (_, units) = proc.to_class(som.weights(), 0).unwrap();
    for (class, share) in [("a", 0.5), ("b", 0.3), ("c", 0.2)].iter() {
        let found = units.iter().filter(|u| u == class).count() as f64 / 64.0;
        assert!((found - share).abs() <= 0.2, "{}: {}", class, found);
    }
}

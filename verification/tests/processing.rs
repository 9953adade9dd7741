use kohonen::calc::neighborhood::Neighborhood;
use kohonen::calc::norm::{LinearTransform, Norm};
use kohonen::data::DataFrame;
use kohonen::map::som::DecayParam;
use kohonen::num::Num;
use kohonen::proc::tables::{Field, Output};
use kohonen::proc::levels::{collect_levels, insert_level};
use kohonen::proc::schema::{find_column, Source};
use kohonen::proc::{
    class_label, truncate, InputLayer, ProcError, Processor, ProcessorBuilder, Record,
};

fn n(x: f64) -> Num {
    Num::from_bits(x.to_bits())
}

fn f(x: Num) -> f64 {
    f64::from_bits(x.to_bits())
}

fn row(values: &[f64]) -> Vec<Num> {
    values.iter().map(|x| n(*x)).collect()
}

fn floats(values: &[Num]) -> Vec<f64> {
    values.iter().map(|x| f(*x)).collect()
}

fn text(s: &str) -> Field {
    Field::Text(s.to_string())
}

fn number(x: f64) -> Field {
    Field::Number(n(x))
}

fn strings(values: &[&str]) -> Vec<String> {
    values.iter().map(|s| s.to_string()).collect()
}

/// Header and records of a table written with `;` between the cells.
fn table(lines: &str) -> (Vec<String>, Vec<Record>) {
    let mut lines = lines.lines().map(|l| l.trim()).filter(|l| !l.is_empty());
    let header = lines.next().unwrap().split(';').map(|s| s.to_string()).collect();
    let records = lines
        .map(|l| {
            let cells: Vec<String> = l.split(';').map(|s| s.to_string()).collect();
            let numbers = cells.iter().map(|c| c.parse::<f64>().ok().map(n)).collect();
            Record { cells, numbers }
        })
        .collect();
    (header, records)
}

const IRIS: &str = "
    id;sepal_length;sepal_width;petal_length;petal_width;species
    a;5.1;3.5;1.4;0.2;setosa
    b;7.0;3.2;4.7;1.4;versicolor
    c;6.3;3.3;6.0;2.5;virginica
    d;4.9;3.0;1.4;0.2;setosa
    e;6.4;3.2;4.5;1.5;versicolor
    f;5.8;2.7;5.1;1.9;virginica
";

fn iris_layers() -> Vec<InputLayer> {
    vec![
        InputLayer::cont_simple(&["sepal_length", "sepal_width", "petal_length", "petal_width"]),
        InputLayer::cat_simple("species"),
    ]
}

fn iris() -> Processor {
    let (header, records) = table(IRIS);
    ProcessorBuilder::new(&iris_layers(), &vec![], &None, &None)
        .with_delimiter(b';')
        .build_from_records(&header, &records)
        .unwrap()
}

fn som_of(proc: &Processor, nrows: usize, ncols: usize) -> kohonen::map::som::Som {
    proc.create_som(
        nrows,
        ncols,
        1000,
        Neighborhood::Gauss,
        DecayParam::lin(n(0.2), n(0.01)),
        DecayParam::lin(n(8.0), n(0.5)),
        DecayParam::exp(n(0.2), n(0.001)).unwrap(),
    )
    .unwrap()
}

#[test]
fn create_proc() {
    let proc = iris();
    let som = som_of(&proc, 16, 20);

    assert_eq!(proc.data().nrows(), 6);
    assert_eq!(proc.data().ncols(), 7);
    assert_eq!(proc.data().names().len(), 7);
    assert_eq!(
        proc.data().names(),
        &strings(&[
            "sepal_length",
            "sepal_width",
            "petal_length",
            "petal_width",
            "species:setosa",
            "species:versicolor",
            "species:virginica"
        ])[..]
    );
    assert_eq!(
        proc.norm(),
        &[
            Norm::Gauss,
            Norm::Gauss,
            Norm::Gauss,
            Norm::Gauss,
            Norm::Plain,
            Norm::Plain,
            Norm::Plain
        ]
    );
    assert_eq!(floats(proc.scale()), vec![1.0; 7]);
    assert_eq!(proc.denorm(), &vec![LinearTransform::identity(); 7][..]);
    assert_eq!(som.weights().ncols(), proc.data().ncols());
    assert_eq!(som.weights().nrows(), 320);
    assert_eq!(som.weights().names(), proc.data().names());
    assert_eq!(som.params().layers(), proc.layers());
    assert_eq!(som.params().start_columns(), &[0, 4][..]);

    assert_eq!(floats(proc.data().get_row(0)), vec![5.1, 3.5, 1.4, 0.2, 1.0, 0.0, 0.0]);
    assert_eq!(floats(proc.data().get_row(1)), vec![7.0, 3.2, 4.7, 1.4, 0.0, 1.0, 0.0]);
    assert_eq!(floats(proc.data().get_row(5)), vec![5.8, 2.7, 5.1, 1.9, 0.0, 0.0, 1.0]);

    let layers = proc.layers();
    assert_eq!(layers.len(), 2);
    assert_eq!((layers[0].ncols(), layers[0].categorical()), (4, false));
    assert_eq!((layers[1].ncols(), layers[1].categorical()), (3, true));
    assert_eq!(proc.layer_range(0), (0, 4));
    assert_eq!(proc.layer_range(1), (4, 7));
    assert_eq!(proc.levels()[0], Vec::<String>::new());
    assert_eq!(proc.levels()[1], strings(&["setosa", "versicolor", "virginica"]));
    let inputs = proc.input_layers();
    assert_eq!(inputs[0].indices, Some(vec![1, 2, 3, 4]));
    assert_eq!(inputs[0].num_columns, Some(4));
    assert_eq!(inputs[1].indices, Some(vec![5]));
    assert_eq!(inputs[1].num_columns, Some(3));
    assert_eq!(proc.labels(), None);
    assert_eq!(proc.no_data(), "NA");
    assert_eq!(proc.delimiter(), b';');
    assert_eq!(proc.schema().header_len, 6);
    assert!(matches!(&proc.schema().sources[5], Source::Level { column: 5, level } if level == "versicolor"));
    assert!(matches!(&proc.schema().sources[2], Source::Number { column: 3 }));
}

#[test]
fn cells_without_data_are_missing() {
    let (header, records) = table(
        "
        x;kind;y
        1.5;b;NA
        NA;NA;2
        -3;a;4e2
        NaN;b;5
    ",
    );
    let layers = vec![InputLayer::cat_simple("kind"), InputLayer::cont_simple(&["y", "x"])];
    let proc = ProcessorBuilder::new(&layers, &vec![], &None, &None)
        .build_from_records(&header, &records)
        .unwrap();
    assert_eq!(proc.data().names(), &strings(&["kind:a", "kind:b", "y", "x"])[..]);
    let rows: Vec<Vec<f64>> = proc.data().iter_rows().iter().map(|r| floats(r)).collect();
    assert_eq!(rows[0][..2], [0.0, 1.0]);
    assert!(rows[0][2].is_nan());
    assert_eq!(rows[0][3], 1.5);
    assert!(rows[1][0].is_nan() && rows[1][1].is_nan() && rows[1][3].is_nan());
    assert_eq!(rows[1][2], 2.0);
    assert_eq!(rows[2], vec![1.0, 0.0, 400.0, -3.0]);
    assert_eq!(rows[3][..3], [0.0, 1.0, 5.0]);
    assert!(rows[3][3].is_nan());
    assert_eq!(proc.norm(), &[Norm::Plain, Norm::Plain, Norm::Gauss, Norm::Gauss]);
}

#[test]
fn another_text_can_mark_missing_cells() {
    let (header, records) = table(
        "
        x;kind
        -;a
        2;-
        3;NA
    ",
    );
    let layers = vec![InputLayer::cont_simple(&["x"]), InputLayer::cat_simple("kind")];
    let proc = ProcessorBuilder::new(&layers, &vec![], &None, &None)
        .with_no_data("-")
        .build_from_records(&header, &records)
        .unwrap();
    assert_eq!(proc.no_data(), "-");
    assert_eq!(proc.levels()[1], strings(&["NA", "a"]));
    let rows: Vec<Vec<f64>> = proc.data().iter_rows().iter().map(|r| floats(r)).collect();
    assert!(rows[0][0].is_nan());
    assert_eq!(rows[0][1..], [0.0, 1.0]);
    assert_eq!(rows[1][0], 2.0);
    assert!(rows[1][1].is_nan() && rows[1][2].is_nan());
    assert_eq!(rows[2], vec![3.0, 1.0, 0.0]);
}

#[test]
fn levels_stand_in_byte_order() {
    let (_, records) = table(
        "
        kind
        b
        a
        NA
        B
        ab
        a
        é
        Z
        b
        10
        9
    ",
    );
    assert_eq!(
        collect_levels(&records, 0, "NA"),
        strings(&["10", "9", "B", "Z", "a", "ab", "b", "é"])
    );
    assert_eq!(collect_levels(&[], 3, "NA"), Vec::<String>::new());
    let mut levels = strings(&["a", "c"]);
    insert_level(&mut levels, "b");
    insert_level(&mut levels, "a");
    insert_level(&mut levels, "");
    insert_level(&mut levels, "d");
    assert_eq!(levels, strings(&["", "a", "b", "c", "d"]));
}

#[test]
fn columns_are_found_where_they_stand_first() {
    let header = strings(&["a", "b", "a", "c"]);
    assert_eq!(find_column(&header, "a"), Some(0));
    assert_eq!(find_column(&header, "c"), Some(3));
    assert_eq!(find_column(&header, "d"), None);
    assert_eq!(find_column(&[], "a"), None);
}

#[test]
fn a_column_that_is_not_there_is_reported() {
    let (header, records) = table(IRIS);
    let build = |layers: Vec<InputLayer>, preserve: Vec<String>, label: Option<String>| {
        ProcessorBuilder::new(&layers, &preserve, &label, &None)
            .build_from_records(&header, &records)
            .unwrap_err()
    };
    let err = build(vec![InputLayer::cont_simple(&["sepal_length", "sepal"])], vec![], None);
    assert_eq!(err, ProcError::Schema { column: "sepal".to_string() });
    assert_eq!(err.to_string(), "Column not found: sepal");
    let err = build(vec![InputLayer::cat_simple("kind")], vec![], None);
    assert_eq!(err, ProcError::Schema { column: "kind".to_string() });
    let err = build(iris_layers(), strings(&["id", "name"]), None);
    assert_eq!(err, ProcError::Schema { column: "name".to_string() });
    let err = build(iris_layers(), strings(&["id"]), Some("label".to_string()));
    assert_eq!(err, ProcError::Schema { column: "label".to_string() });
    let err = build(
        vec![InputLayer::cont_simple(&["sepal_length", "x"])],
        strings(&["y"]),
        Some("z".to_string()),
    );
    assert_eq!(err, ProcError::Schema { column: "x".to_string() });
}

#[test]
fn a_cell_that_is_no_number_is_reported() {
    let (header, records) = table(
        "
        x;y;kind
        1;2;a
        3;four;b
        five;6;c
    ",
    );
    let layers = vec![InputLayer::cat_simple("kind"), InputLayer::cont_simple(&["x", "y"])];
    let err = ProcessorBuilder::new(&layers, &vec![], &None, &None)
        .build_from_records(&header, &records)
        .unwrap_err();
    assert_eq!(
        err,
        ProcError::Parse { value: "four".to_string(), column: "y".to_string(), record: 1 }
    );
    assert_eq!(err.to_string(), "Unable to parse value four in column y of record 1");
    let layers = vec![InputLayer::cont_simple(&["y", "x"])];
    let err = ProcessorBuilder::new(&layers, &vec![], &None, &None)
        .build_from_records(&header, &records[2..])
        .unwrap_err();
    assert_eq!(
        err,
        ProcError::Parse { value: "five".to_string(), column: "x".to_string(), record: 0 }
    );
    let layers = vec![InputLayer::cat_simple("y"), InputLayer::cont_simple(&["x"])];
    assert!(ProcessorBuilder::new(&layers, &vec![], &None, &None)
        .build_from_records(&header, &records[..2])
        .is_ok());
}

#[test]
fn columns_are_preserved_and_labels_cut() {
    let (header, records) = table(IRIS);
    let proc = ProcessorBuilder::new(
        &iris_layers(),
        &strings(&["species", "id"]),
        &Some("species".to_string()),
        &Some(4),
    )
    .build_from_records(&header, &records)
    .unwrap();
    assert_eq!(proc.preserve_columns(), &strings(&["species", "id"])[..]);
    assert_eq!(proc.preserved()[1], strings(&["a", "b", "c", "d", "e", "f"]));
    assert_eq!(proc.preserved()[0][2], "virginica");
    assert_eq!(
        proc.labels().unwrap(),
        &strings(&["seto", "vers", "virg", "seto", "vers", "virg"])[..]
    );
    assert_eq!(proc.schema().preserve_indices, vec![5, 0]);
    assert_eq!(proc.schema().label_index, Some(5));
    let whole = ProcessorBuilder::new(&iris_layers(), &vec![], &Some("id".to_string()), &None)
        .build_from_records(&header, &records)
        .unwrap();
    assert_eq!(whole.labels().unwrap()[4], "e");
}

#[test]
fn labels_are_cut_by_characters() {
    assert_eq!(truncate("versicolor", Some(4)), "vers");
    assert_eq!(truncate("versicolor", Some(10)), "versicolor");
    assert_eq!(truncate("versicolor", Some(30)), "versicolor");
    assert_eq!(truncate("versicolor", Some(0)), "");
    assert_eq!(truncate("versicolor", None), "versicolor");
    assert_eq!(truncate("äöüß", Some(2)), "äö");
    assert_eq!(truncate("", Some(2)), "");
}

#[test]
fn layer_to_class() {
    let proc = iris();
    let som = som_of(&proc, 16, 20);
    let (name, classes) = proc.to_class(som.weights(), 1).unwrap();
    assert_eq!(classes.len(), som.weights().nrows());
    assert_eq!(&name[..], "species");
    assert!(classes.iter().all(|c| c == "setosa"));

    let (name, classes) = proc.to_class(proc.data(), 1).unwrap();
    assert_eq!(name, "species");
    assert_eq!(
        classes,
        strings(&["setosa", "versicolor", "virginica", "setosa", "versicolor", "virginica"])
    );
    let err = proc.to_class(proc.data(), 0).unwrap_err();
    assert_eq!(
        err.to_string(),
        "Classes can be derived only for categorical layers, but layer 0 is not."
    );
}

#[test]
fn classes_are_the_greatest_levels() {
    let levels = strings(&["a", "b", "c"]);
    assert_eq!(class_label(&row(&[0.1, 0.7, 0.2]), &levels, "NA"), "b");
    assert_eq!(class_label(&row(&[0.5, 0.5, 0.5]), &levels, "NA"), "a");
    assert_eq!(class_label(&row(&[f64::NAN, -1.0, f64::NAN]), &levels, "NA"), "b");
    assert_eq!(class_label(&row(&[f64::NAN, -2.0, -1.0]), &levels, "NA"), "c");
    assert_eq!(class_label(&row(&[f64::NAN, f64::NAN, f64::NAN]), &levels, "none"), "none");
    assert_eq!(class_label(&row(&[f64::NEG_INFINITY, f64::NAN, f64::MIN]), &levels, "NA"), "c");
    assert_eq!(class_label(&[], &vec![], "NA"), "NA");
}

#[test]
fn normalized_data_take_the_place_of_what_was_read() {
    let proc = iris();
    let mut data = proc.data().clone();
    for r in 0..data.nrows() {
        for c in 0..4 {
            let v = f(*data.get(r, c));
            data.set(r, c, n(v / 10.0));
        }
    }
    let mut denorm = vec![LinearTransform::new(n(10.0), n(0.0)); 4];
    denorm.extend(vec![LinearTransform::identity(); 3]);
    let proc = proc.normalized(data, denorm.clone(), &row(&[0.75, 0.25]));
    assert_eq!(
        floats(proc.data().get_row(1)),
        vec![7.0 / 10.0, 3.2 / 10.0, 4.7 / 10.0, 1.4 / 10.0, 0.0, 1.0, 0.0]
    );
    assert_eq!(proc.denorm(), &denorm[..]);
    assert_eq!(f(proc.layers()[0].weight()), 0.75);
    assert_eq!(f(proc.layers()[1].weight()), 0.25);
    assert_eq!(proc.layers()[1].ncols(), 3);
    assert!(proc.layers()[1].categorical());
    assert_eq!(proc.levels()[1].len(), 3);
    let som = som_of(&proc, 2, 2);
    assert_eq!(f(som.params().layers()[0].weight()), 0.75);
}

#[test]
fn a_map_needs_schedules_that_fit() {
    let proc = iris();
    let err = proc
        .create_som(
            2,
            2,
            1,
            Neighborhood::Gauss,
            DecayParam::lin(n(0.2), n(0.01)),
            DecayParam::lin(n(8.0), n(0.5)),
            DecayParam::lin(n(0.2), n(0.2)),
        )
        .unwrap_err();
    assert_eq!(err.to_string(), "A schedule that changes needs at least two epochs");
}

fn units_of(proc: &Processor, class_values: bool) -> Output {
    let mut som = som_of(proc, 1, 2);
    som.init_weights(&row(&[
        5.0, 3.0, 1.5, 0.25, 0.9, 0.1, 0.0, //
        6.5, 3.0, 5.5, 2.0, 0.2, 0.3, 0.5,
    ]));
    let denormalized = DataFrame::from_rows(
        &["a", "b", "c", "d", "e", "f", "g"],
        &[
            row(&[50.0, 30.0, 15.0, 2.5, 0.9, 0.1, 0.0]),
            row(&[65.0, 30.0, 55.0, 20.0, 0.2, 0.3, 0.5]),
        ],
    );
    proc.som_units_table(&som, &denormalized, class_values)
}

#[test]
fn the_units_of_a_map_are_tabled() {
    let proc = iris();
    let table = units_of(&proc, false);
    assert_eq!(
        table.names,
        strings(&[
            "index",
            "row",
            "col",
            "sepal_length",
            "sepal_width",
            "petal_length",
            "petal_width",
            "species"
        ])
    );
    assert_eq!(
        table.rows,
        vec![
            vec![
                text("0"),
                text("0"),
                text("0"),
                number(50.0),
                number(30.0),
                number(15.0),
                number(2.5),
                text("setosa")
            ],
            vec![
                text("1"),
                text("0"),
                text("1"),
                number(65.0),
                number(30.0),
                number(55.0),
                number(20.0),
                text("virginica")
            ],
        ]
    );
    let table = units_of(&proc, true);
    assert_eq!(
        table.names[7..],
        strings(&["species:setosa", "species:versicolor", "species:virginica", "species"])[..]
    );
    assert_eq!(
        table.rows[1][3..],
        [
            number(65.0),
            number(30.0),
            number(55.0),
            number(20.0),
            number(0.2),
            number(0.3),
            number(0.5),
            text("virginica")
        ]
    );
}

#[test]
fn classes_before_numbers_are_tabled_in_order() {
    let (header, records) = table(IRIS);
    let layers = vec![
        InputLayer::cat_simple("species"),
        InputLayer::cont_simple(&["petal_width"]),
        InputLayer::cat_simple("id"),
    ];
    let proc = ProcessorBuilder::new(&layers, &strings(&["id"]), &None, &None)
        .build_from_records(&header, &records[..2])
        .unwrap();
    assert_eq!(
        proc.data().names(),
        &strings(&["species:setosa", "species:versicolor", "petal_width", "id:a", "id:b"])[..]
    );
    let som = som_of(&proc, 3, 4);
    let mut denormalized = proc.data().clone();
    denormalized.set(0, 2, n(f64::NAN));
    let nearest = vec![(7, n(0.5)), (11, n(0.25))];
    let table = proc.data_nearest_table(&som, proc.data(), &denormalized, &nearest);
    assert_eq!(
        table.names,
        strings(&["id", "species", "petal_width", "id", "som_index", "som_row", "som_col"])
    );
    assert_eq!(
        table.rows,
        vec![
            vec![text("a"), text("setosa"), text("NA"), text("a"), text("7"), text("1"), text("3")],
            vec![
                text("b"),
                text("versicolor"),
                number(1.4),
                text("b"),
                text("11"),
                text("2"),
                text("3")
            ],
        ]
    );
    let mut som = som;
    let n_cells = som.weights().data().len();
    som.init_weights(&vec![n(f64::NAN); n_cells]);
    let units = proc.som_units_table(&som, &som.weights().clone(), true);
    assert_eq!(units.rows.len(), 12);
    assert_eq!(units.rows[10][..3], [text("10"), text("2"), text("2")]);
    assert_eq!(units.rows[10][5], text("NA"));
    assert_eq!(units.rows[10][7], units.rows[10][3]);
    assert_eq!(units.rows[10].len(), units.names.len());
}

#[test]
fn a_table_without_records_has_no_levels() {
    let (header, records) = table("x;kind");
    let layers = vec![InputLayer::cont_simple(&["x"]), InputLayer::cat_simple("kind")];
    let proc = ProcessorBuilder::new(&layers, &vec![], &Some("kind".to_string()), &None)
        .build_from_records(&header, &records)
        .unwrap();
    assert_eq!(proc.data().nrows(), 0);
    assert_eq!(proc.data().ncols(), 1);
    assert_eq!(proc.layers()[1].ncols(), 0);
    assert_eq!(proc.labels().unwrap().len(), 0);
    let (name, classes) = proc.to_class(proc.data(), 1).unwrap();
    assert_eq!((name.as_str(), classes.len()), ("kind", 0));
}

#[test]
fn input_layers_have_their_defaults() {
    let l = InputLayer::cat("kind", n(2.0));
    assert_eq!((l.names.clone(), f(l.weight), l.is_class, l.norm), (strings(&["kind"]), 2.0, true, Norm::Plain));
    assert_eq!(f(l.scale), 1.0);
    let l = InputLayer::cont(&["x", "y"], n(0.5), Norm::Unit, Some(n(3.0)));
    assert_eq!((l.names.len(), f(l.weight), l.is_class, l.norm, f(l.scale)), (2, 0.5, false, Norm::Unit, 3.0));
    let l = InputLayer::new(&["x"], n(1.0), false, Norm::Gauss, None);
    assert_eq!(f(l.scale), 1.0);
    assert_eq!(l.metric, kohonen::calc::metric::Metric::Euclidean);
    assert_eq!(l.indices, None);
    let l = InputLayer::cat_simple("k").with_metric(kohonen::calc::metric::Metric::Euclidean);
    assert_eq!(l.metric, kohonen::calc::metric::Metric::Euclidean);
    assert_eq!(f(l.weight), 1.0);
}

fn written(table: &Output, delimiter: u8) -> Vec<u8> {
    let mut writer = csv::WriterBuilder::new().delimiter(delimiter).from_writer(vec![]);
    writer.write_record(&table.names).unwrap();
    for row in table.rows.iter() {
        let cells: Vec<String> = row
            .iter()
            .map(|field| match field {
                Field::Text(t) => t.clone(),
                Field::Number(x) => f(*x).to_string(),
            })
            .collect();
        writer.write_record(&cells).unwrap();
    }
    writer.into_inner().unwrap()
}

#[test]
fn a_written_table_is_read_back() {
    let (header, records) = table(IRIS);
    let proc = ProcessorBuilder::new(&iris_layers(), &strings(&["id", "species"]), &None, &None)
        .with_delimiter(b';')
        .build_from_records(&header, &records)
        .unwrap();
    let som = som_of(&proc, 4, 5);
    let nearest: Vec<(usize, Num)> = (0..6).map(|i| ((i * 7) % 20, n(0.5))).collect();
    let out = proc.data_nearest_table(&som, proc.data(), proc.data(), &nearest);
    let bytes = written(&out, proc.delimiter());
    let mut reader = csv::ReaderBuilder::new().delimiter(b';').from_reader(&bytes[..]);
    let head: Vec<String> = reader.headers().unwrap().iter().map(|s| s.to_string()).collect();
    assert_eq!(head, out.names);
    assert_eq!(
        head,
        strings(&[
            "id",
            "species",
            "sepal_length",
            "sepal_width",
            "petal_length",
            "petal_width",
            "species",
            "som_index",
            "som_row",
            "som_col"
        ])
    );
    let rows: Vec<Vec<String>> = reader
        .records()
        .map(|r| r.unwrap().iter().map(|s| s.to_string()).collect())
        .collect();
    assert_eq!(rows.len(), 6);
    for (i, row) in rows.iter().enumerate() {
        assert_eq!(row[0], records[i].cells[0]);
        assert_eq!(row[1], records[i].cells[5]);
        for c in 2..6 {
            assert_eq!(row[c].parse::<f64>().unwrap(), records[i].cells[c - 1].parse::<f64>().unwrap());
        }
        assert_eq!(row[6], records[i].cells[5]);
        assert_eq!(row[7].parse::<usize>().unwrap(), nearest[i].0);
        assert_eq!(row[8].parse::<usize>().unwrap(), nearest[i].0 / 5);
        assert_eq!(row[9].parse::<usize>().unwrap(), nearest[i].0 % 5);
    }
}

#[test]
fn the_normalization_is_tabled() {
    let proc = iris();
    let forward = vec![LinearTransform::new(n(0.5), n(-1.0)); 7];
    let table = proc.normalization_table(&forward);
    assert_eq!(
        table.names,
        strings(&["column", "norm", "scale", "offset", "inverse_scale", "inverse_offset"])
    );
    assert_eq!(table.rows.len(), 7);
    assert_eq!(
        table.rows[1],
        vec![text("sepal_width"), text("gauss"), number(0.5), number(-1.0), number(1.0), number(0.0)]
    );
    assert_eq!(table.rows[6][..2], [text("species:virginica"), text("none")]);
    assert_eq!(Norm::from_string(Norm::Unit.name()), Ok(Norm::Unit));
    assert_eq!(Norm::from_string(Norm::Gauss.name()), Ok(Norm::Gauss));
    assert_eq!(Norm::from_string(Norm::Plain.name()), Ok(Norm::Plain));
}

#[test]
fn the_columns_of_a_layer_are_taken_out() {
    let proc = iris();
    let df = proc.layer_data(proc.data(), 1);
    assert_eq!(
        df.names(),
        &strings(&["species:setosa", "species:versicolor", "species:virginica"])[..]
    );
    assert_eq!(df.nrows(), 6);
    assert_eq!(floats(df.get_row(2)), vec![0.0, 0.0, 1.0]);
    let df = proc.layer_data(proc.data(), 0);
    assert_eq!(floats(df.get_row(3)), vec![4.9, 3.0, 1.4, 0.2]);
}

#[test]
fn nearest_unit() {
    let proc = iris();
    let som = som_of(&proc, 16, 20);
    let names: Vec<String> = (0..320).map(|i| i.to_string()).collect();
    let names: Vec<&str> = names.iter().map(|s| &**s).collect();
    let mut distances = DataFrame::empty(&names);
    for r in 0..proc.data().nrows() {
        let d: Vec<Num> = (0..320).map(|u| n(((u + 300 - 50 * r) % 320) as f64)).collect();
        distances.push_row(&d);
    }
    let nearest = proc.nearest_unit(&som, &distances);

    assert_eq!(nearest.len(), proc.data().nrows());
    assert_eq!(
        nearest.iter().map(|(u, d)| (*u, f(*d))).collect::<Vec<_>>(),
        vec![(20, 0.0), (70, 0.0), (120, 0.0), (170, 0.0), (220, 0.0), (270, 0.0)]
    );
}

#[test]
fn degenerate_ranges_are_told() {
    assert!(Norm::is_degenerate((n(2.0), n(2.0))));
    assert!(Norm::is_degenerate((n(f64::NAN), n(f64::NAN))));
    assert!(Norm::is_degenerate((n(-0.0), n(0.0))));
    assert!(!Norm::is_degenerate((n(1.0), n(2.0))));
}

#[test]
fn write_som() {
    let proc = iris();
    let som = som_of(&proc, 16, 20);
    let table = proc.som_units_table(&som, som.weights(), false);
    assert_eq!(table.rows.len(), 320);
    assert_eq!(table.names.len(), 8);
    assert_eq!(table.rows[319][..3], [text("319"), text("15"), text("19")]);
}

#[test]
fn denormalize_layer() {
    let proc = iris();
    let som = som_of(&proc, 16, 20);
    let layer = proc.layer_data(som.weights(), 0);
    let denorm = &proc.denorm()[proc.layer_range(0).0..proc.layer_range(0).1];
    assert_eq!(layer.nrows(), som.weights().nrows());
    assert_eq!(layer.ncols(), proc.layers()[0].ncols());
    assert_eq!(denorm.len(), layer.ncols());
}

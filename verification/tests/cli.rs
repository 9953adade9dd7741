use kohonen::calc::metric::Metric;
use kohonen::calc::neighborhood::Neighborhood;
use kohonen::calc::norm::Norm;
use kohonen::cli::{Arg, Cli, CliParsed};
use kohonen::map::som::DecayFunction;
use kohonen::num::Num;
use kohonen::text::{
    chars_of, decimal_text, order_text, same_text, space, split_range, text_between, trim_range,
    Order,
};

fn n(x: f64) -> Num {
    Num::from_bits(x.to_bits())
}

fn f(x: Num) -> f64 {
    f64::from_bits(x.to_bits())
}

fn strings(values: &[&str]) -> Vec<String> {
    values.iter().map(|s| s.to_string()).collect()
}

fn args(values: &[&str]) -> Vec<Arg> {
    values
        .iter()
        .map(|s| Arg { text: s.to_string(), number: s.parse::<f64>().ok().map(n) })
        .collect()
}

fn cli() -> Cli {
    Cli {
        file: "iris.csv".to_string(),
        size: vec![20, 16],
        epochs: 1000,
        layers: strings(&["sepal_length sepal_width", " species "]),
        preserve: strings(&["id"]),
        labels: Some("species".to_string()),
        label_length: Some(3),
        label_samples: None,
        weights: vec![],
        categ: vec![false, true],
        metric: vec![],
        norm: vec![],
        alpha: args(&["0.2", "0.01", "lin"]),
        radius: args(&["8", "0.5", "lin"]),
        decay: args(&["0.2", "0.001", "exp"]),
        neigh: None,
        nogui: true,
        fps: None,
        no_data: None,
        output: Some("out/iris".to_string()),
        wait: false,
    }
}

fn fault(cli: Cli) -> String {
    CliParsed::from_cli(cli).unwrap_err().to_string()
}

#[test]
fn a_command_line_is_split_into_arguments() {
    let line = "kohonen --file data.csv  --layers \"a b  c\" \" d \" --size 3 4 --no-data \"\" -e 5";
    assert_eq!(
        Cli::tokenize(line),
        strings(&[
            "kohonen", "--file", "data.csv", "--layers", "a b  c", "d", "--size", "3", "4",
            "--no-data", "", "-e", "5"
        ])
    );
    assert_eq!(Cli::tokenize(""), Vec::<String>::new());
    assert_eq!(Cli::tokenize("   "), Vec::<String>::new());
    assert_eq!(Cli::tokenize("a"), strings(&["a"]));
    assert_eq!(Cli::tokenize("\t a \u{a0}"), strings(&["a"]));
    assert_eq!(Cli::tokenize("a\tb c"), strings(&["a\tb", "c"]));
    assert_eq!(Cli::tokenize("\"x y\""), strings(&["x y"]));
    assert_eq!(Cli::tokenize("a \"b"), strings(&["a", "b"]));
    assert_eq!(Cli::tokenize("\"\"\"\""), strings(&["", ""]));
    assert_eq!(Cli::tokenize("ä \"ö ü\" ß"), strings(&["ä", "ö ü", "ß"]));
}

#[test]
fn arguments_are_parsed() {
    let parsed = CliParsed::from_cli(cli()).unwrap();
    assert_eq!(parsed.file, "iris.csv");
    assert_eq!(parsed.size, (20, 16));
    assert_eq!(parsed.epochs, 1000);
    assert_eq!(parsed.preserve, strings(&["id"]));
    assert_eq!(parsed.labels, Some("species".to_string()));
    assert_eq!(parsed.label_length, Some(3));
    assert_eq!(parsed.label_samples, None);
    assert_eq!((f(parsed.alpha.start()), f(parsed.alpha.end())), (0.2, 0.01));
    assert_eq!(parsed.alpha.function(), DecayFunction::Linear);
    assert_eq!((f(parsed.radius.start()), f(parsed.radius.end())), (8.0, 0.5));
    assert_eq!((f(parsed.decay.start()), f(parsed.decay.end())), (0.2, 0.001));
    assert_eq!(parsed.decay.function(), DecayFunction::Exponential);
    assert_eq!(parsed.neigh, Neighborhood::Gauss);
    assert!(!parsed.gui);
    assert_eq!(parsed.no_data, "NA");
    assert_eq!(f(parsed.fps), 2.0);
    assert_eq!(parsed.output, Some("out/iris".to_string()));
    assert!(!parsed.wait);

    assert_eq!(parsed.layers.len(), 2);
    let l = &parsed.layers[0];
    assert_eq!(l.names, strings(&["sepal_length", "sepal_width"]));
    assert_eq!((f(l.weight), l.is_class, l.metric, l.norm), (1.0, false, Metric::Euclidean, Norm::Gauss));
    assert_eq!(f(l.scale), 1.0);
    let l = &parsed.layers[1];
    assert_eq!(l.names, strings(&["species"]));
    assert_eq!((f(l.weight), l.is_class, l.metric, l.norm), (1.0, true, Metric::Tanimoto, Norm::Plain));
    assert_eq!((l.indices.clone(), l.num_columns), (None, None));
}

#[test]
fn options_take_the_place_of_defaults() {
    let mut c = cli();
    c.weights = vec![n(2.0), n(0.5)];
    c.metric = strings(&["euclidean", "euclidean"]);
    c.norm = strings(&["unit", "none"]);
    c.neigh = Some("quartic".to_string());
    c.nogui = false;
    c.fps = Some(n(30.0));
    c.no_data = Some("-".to_string());
    c.layers = strings(&["a  b", "c"]);
    let parsed = CliParsed::from_cli(c).unwrap();
    let l = &parsed.layers[0];
    assert_eq!(l.names, strings(&["a", "", "b"]));
    assert_eq!((f(l.weight), l.is_class, l.metric, l.norm), (2.0, false, Metric::Euclidean, Norm::Unit));
    let l = &parsed.layers[1];
    assert_eq!((f(l.weight), l.is_class, l.metric, l.norm), (0.5, true, Metric::Euclidean, Norm::Plain));
    assert_eq!(parsed.neigh, Neighborhood::Quartic);
    assert!(parsed.gui);
    assert_eq!(f(parsed.fps), 30.0);
    assert_eq!(parsed.no_data, "-");

    let mut c = cli();
    c.categ = vec![];
    let parsed = CliParsed::from_cli(c).unwrap();
    assert!(!parsed.layers[1].is_class);
    assert_eq!(parsed.layers[1].norm, Norm::Gauss);
}

#[test]
fn options_that_do_not_fit_are_refused() {
    let with = |change: &dyn Fn(&mut Cli)| {
        let mut c = cli();
        change(&mut c);
        fault(c)
    };
    assert_eq!(with(&|c| c.size = vec![3]), "Two arguments required for size: width, height");
    assert_eq!(with(&|c| c.epochs = 0), "At least one epoch is required (option --epochs)");
    assert_eq!(
        with(&|c| c.layers = vec![]),
        "Expected columns for at least one layer (option --layers)"
    );
    assert_eq!(
        with(&|c| c.weights = vec![n(1.0)]),
        "Expected no weights, or as many as layers (option --weights)"
    );
    assert_eq!(
        with(&|c| c.categ = vec![true, false, true]),
        "Expected no categorical true/false, or as many as layers (option --categ)"
    );
    assert_eq!(
        with(&|c| c.metric = strings(&["euclidean"])),
        "Expected no metric, or as many as layers (option --metric)"
    );
    assert_eq!(
        with(&|c| c.norm = strings(&["none"])),
        "Expected no normalizers, or as many as layers (option --norm)"
    );
    assert_eq!(
        with(&|c| c.metric = strings(&["euclidean", "cosine"])),
        "Not a metric: cosine. Must be one of (euclidean|tanimoto)"
    );
    assert_eq!(
        with(&|c| c.norm = strings(&["log", "sqrt"])),
        "Not a normalizer: log. Must be one of (unit|gauss|none)"
    );
    assert_eq!(
        with(&|c| c.layers = strings(&["a", "b c"])),
        "A categorical layer has exactly one column"
    );
    assert_eq!(
        with(&|c| c.norm = strings(&["gauss", "gauss"])),
        "A categorical layer is not normalized"
    );
    assert_eq!(
        with(&|c| c.alpha = args(&["0.2", "0.01"])),
        "Three argument required for alpha: start value, end value, decay function (lin|exp)"
    );
    assert_eq!(with(&|c| c.radius = args(&["x", "0.5", "lin"])), "Unable to parse value x in radius");
    assert_eq!(with(&|c| c.decay = args(&["1", "", "lin"])), "Unable to parse value  in decay");
    assert_eq!(
        with(&|c| c.alpha = args(&["0.2", "0.01", "linear"])),
        "Not a decay function: linear. Must be one of (lin|exp)"
    );
    assert_eq!(
        with(&|c| c.decay = args(&["0.2", "0", "exp"])),
        "An exponential decay needs a start and an end value above zero"
    );
    assert_eq!(
        with(&|c| c.neigh = Some("cone".to_string())),
        "Not a neighborhood: cone. Must be one of (gauss|triangular|epanechnikov|quartic|triweight)"
    );
    assert_eq!(
        with(&|c| {
            c.size = vec![];
            c.epochs = 0;
            c.layers = vec![];
        }),
        "Two arguments required for size: width, height"
    );
}

#[test]
fn schedules_are_read_from_three_arguments() {
    let p = CliParsed::parse_decay(&args(&["1e-1", "2", "exp"]), "alpha").unwrap();
    assert_eq!((f(p.start()), f(p.end()), p.function()), (0.1, 2.0, DecayFunction::Exponential));
    assert!(CliParsed::parse_decay(&args(&["-1", "2", "lin"]), "alpha").is_ok());
    assert!(CliParsed::parse_decay(&args(&["-1", "2", "exp"]), "alpha").is_err());
    assert!(CliParsed::parse_decay(&[], "alpha").is_err());
}

#[test]
fn texts_are_ordered_by_their_bytes() {
    assert_eq!(order_text("a", "b"), Order::Before);
    assert_eq!(order_text("b", "a"), Order::After);
    assert_eq!(order_text("a", "a"), Order::Same);
    assert_eq!(order_text("", "a"), Order::Before);
    assert_eq!(order_text("ab", "a"), Order::After);
    assert_eq!(order_text("Z", "a"), Order::Before);
    assert_eq!(order_text("z", "é"), Order::Before);
    assert_eq!(order_text("10", "9"), Order::Before);
    for (a, b) in [("x", "y"), ("", ""), ("ä", "a"), ("abc", "abd"), ("ab", "abc")].iter() {
        let want = match a.cmp(b) {
            std::cmp::Ordering::Less => Order::Before,
            std::cmp::Ordering::Equal => Order::Same,
            std::cmp::Ordering::Greater => Order::After,
        };
        assert_eq!(order_text(a, b), want);
        assert_eq!(same_text(a, b), a == b);
    }
}

#[test]
fn numbers_are_written_in_decimal() {
    for v in [0usize, 1, 9, 10, 11, 99, 100, 101, 12345, 1000000, usize::MAX].iter() {
        assert_eq!(decimal_text(*v), v.to_string());
    }
}

#[test]
fn white_space_is_what_the_machine_calls_so() {
    for v in 0..=0x10ffffu32 {
        if let Some(c) = std::char::from_u32(v) {
            assert_eq!(space(c), c.is_whitespace(), "{:x}", v);
        }
    }
}

#[test]
fn texts_are_trimmed_and_split() {
    let samples = [
        "",
        " ",
        "a",
        "  a b  ",
        "\t x\u{a0}y \n",
        " , ,a,,b, ",
        ",",
        "ä, ö ,ü",
        "\u{3000}wide\u{2003}",
    ];
    for text in samples.iter() {
        let chars = chars_of(text);
        assert_eq!(chars, text.chars().collect::<Vec<char>>());
        let (a, b) = trim_range(&chars, 0, chars.len());
        assert_eq!(text_between(text, a, b), text.trim());
        let pieces: Vec<String> = split_range(&chars, 0, chars.len(), ',')
            .iter()
            .map(|(from, to)| text_between(text, *from, *to))
            .collect();
        let wanted: Vec<String> = text.split(',').map(|s| s.to_string()).collect();
        assert_eq!(pieces, wanted);
        for (from, to) in split_range(&chars, a, b, ' ') {
            let (c, d) = trim_range(&chars, from, to);
            assert_eq!(text_between(text, c, d), text_between(text, from, to).trim());
        }
    }
}

#[test]
fn command_lines_are_split_as_by_hand() {
    let by_hand = |line: &str| -> Vec<String> {
        let mut args: Vec<String> = vec![];
        for (i, part) in line.split('"').enumerate() {
            let part = part.trim();
            if i % 2 == 0 {
                args.extend(part.split(' ').map(|s| s.trim().to_string()).filter(|s| !s.is_empty()));
            } else {
                args.push(part.to_string());
            }
        }
        args
    };
    for line in [
        "kohonen -f data.csv -l \"a b\" \"c\" --size 3 4",
        "  --x   \" quoted  text \"   y ",
        "\"\"",
        "a\"b\"c",
        "\t--tab\t \"in\tside\"",
        "one",
        "",
    ]
    .iter()
    {
        assert_eq!(Cli::tokenize(line), by_hand(line), "{:?}", line);
    }
}

//! The model trainer: its command line, where its data sets are, the
//! confusion counts of a validation and the checks a split must pass.
//!
//! Reading floating-point ratios and computing the metrics themselves stays
//! with the caller; this module decides everything else.

use vstd::prelude::*;

use crate::cli::kept_piece;
use crate::order::{is_stable_order, stable_order, stably_before};
use crate::text::{lemma_text_lt_order, text_less, text_lt};
use crate::text::{
    append_chars, append_vec, chars_of, float_text_check, float_text_error, has_prefix,
    parse_unsigned, parse_unsigned_chars, string_of, string_of_range, trim_bounds,
    split_lines, text_lines, texts, vec_eq_str, vec_has_prefix,
};

verus! {

/// The forest the trainer fits.
#[derive(Debug, Clone, Copy, PartialEq, Eq, Structural)]
pub struct RandomForestConfig {
    pub n_trees: usize,
    pub max_depth: Option<usize>,
    pub min_samples_split: usize,
}

impl Default for RandomForestConfig {
    fn default() -> (r: Self)
        ensures
            r.n_trees == 300,
            r.max_depth == Some(16usize),
            r.min_samples_split == 4,
    {
        RandomForestConfig { n_trees: 300, max_depth: Some(16), min_samples_split: 4 }
    }
}

/// What an option of the form `--name value` or `--name=value` finds at
/// the head of the arguments.
pub enum OptionHit {
    /// The head is not this option.
    Miss,
    /// The option is last, without its value.
    Missing,
    /// The option's value, and how many arguments it took.
    Value(Seq<char>, nat),
}

/// The option `name` at the head of `args`.
pub open spec fn option_hit(args: Seq<Seq<char>>, name: Seq<char>) -> OptionHit {
    if args[0] == name {
        if args.len() >= 2 {
            OptionHit::Value(args[1], 2)
        } else {
            OptionHit::Missing
        }
    } else if has_prefix(args[0], name + "="@) {
        OptionHit::Value(args[0].skip(name.len() + 1int), 1)
    } else {
        OptionHit::Miss
    }
}

/// The trainer's options read so far: data set directory, manifest, window,
/// text of the training share, report path.
pub type TrainerScan = (Option<Seq<char>>, Option<Seq<char>>, nat, Option<Seq<char>>, Option<Seq<char>>);

/// Reads `args` after `acc`, or gives the first error.
pub open spec fn trainer_scan_from(args: Seq<Seq<char>>, acc: TrainerScan) -> Result<TrainerScan, Seq<char>>
    decreases args.len(),
{
    if args.len() == 0 {
        Ok(acc)
    } else {
        match option_hit(args, "--dataset-dir"@) {
            OptionHit::Missing => Err("--dataset-dir expects a value"@),
            OptionHit::Value(v, n) => trainer_scan_from(
                args.skip(n as int),
                (Some(v), acc.1, acc.2, acc.3, acc.4),
            ),
            OptionHit::Miss => match option_hit(args, "--manifest"@) {
                OptionHit::Missing => Err("--manifest expects a value"@),
                OptionHit::Value(v, n) => trainer_scan_from(
                    args.skip(n as int),
                    (acc.0, Some(v), acc.2, acc.3, acc.4),
                ),
                OptionHit::Miss => match option_hit(args, "--window"@) {
                    OptionHit::Missing => Err("--window expects a value"@),
                    OptionHit::Value(v, n) => match parse_unsigned(v, usize::MAX as nat) {
                        Ok(w) => trainer_scan_from(
                            args.skip(n as int),
                            (acc.0, acc.1, w, acc.3, acc.4),
                        ),
                        Err(_) => Err("invalid --window value '"@ + v + "'"@),
                    },
                    OptionHit::Miss => match option_hit(args, "--train-ratio"@) {
                        OptionHit::Missing => Err("--train-ratio expects a value"@),
                        OptionHit::Value(v, n) => match float_text_error(v) {
                            None => trainer_scan_from(
                                args.skip(n as int),
                                (acc.0, acc.1, acc.2, Some(v), acc.4),
                            ),
                            Some(_) => Err("invalid --train-ratio value '"@ + v + "'"@),
                        },
                        OptionHit::Miss => match option_hit(args, "--out"@) {
                            OptionHit::Missing => Err("--out expects a value"@),
                            OptionHit::Value(v, n) => trainer_scan_from(
                                args.skip(n as int),
                                (acc.0, acc.1, acc.2, acc.3, Some(v)),
                            ),
                            OptionHit::Miss => Err("unknown argument '"@ + args[0] + "'"@),
                        },
                    },
                },
            },
        }
    }
}

/// The window length when none is given.
pub const DEFAULT_WINDOW: usize = 24;

/// The data set directory when neither a directory nor a manifest is given.
pub open spec fn default_dataset_dir() -> Seq<char> {
    "./experiments/dataset_large"@
}

/// What `parse_trainer_args` gives: the options, the window checked to be
/// at least 2, and the default data set when none is named.
pub open spec fn trainer_options_of(args: Seq<Seq<char>>) -> Result<TrainerScan, Seq<char>> {
    match trainer_scan_from(args, (None, None, DEFAULT_WINDOW as nat, None, None)) {
        Err(m) => Err(m),
        Ok(s) => if s.2 < 2 {
            Err("--window must be >= 2"@)
        } else if s.0 is None && s.1 is None {
            Ok((Some(default_dataset_dir()), s.1, s.2, s.3, s.4))
        } else {
            Ok(s)
        },
    }
}

/// The trainer's options. The training share stays the text it was given
/// in: it is a floating-point number, which the caller reads (it is known
/// to parse) and checks to lie in `[0.1, 0.95]`.
#[derive(Debug, Clone)]
pub struct TrainerArgs {
    pub dataset_dir: Option<String>,
    pub manifest: Option<String>,
    pub window: usize,
    pub train_ratio_text: Option<String>,
    pub out: Option<String>,
}

/// The text of an optional string.
pub open spec fn opt_view(s: Option<String>) -> Option<Seq<char>> {
    match s {
        Some(t) => Some(t@),
        None => None,
    }
}

/// An option's value found at `args[i]`.
pub enum ExecHit {
    Miss,
    Missing,
    Value(String, usize),
}

/// The option `name` at `args[i]`.
fn find_option(args: &Vec<String>, i: usize, name: &str) -> (r: ExecHit)
    requires
        i < args@.len(),
    ensures
        match (r, option_hit(texts(args@).skip(i as int), name@)) {
            (ExecHit::Miss, OptionHit::Miss) => true,
            (ExecHit::Missing, OptionHit::Missing) => true,
            (ExecHit::Value(v, n), OptionHit::Value(w, m)) => v@ == w && n as nat == m,
            _ => false,
        },
{
    let ghost rest = texts(args@).skip(i as int);
    proof {
        assert(rest[0] == args@[i as int]@);
    }
    let a = chars_of(args[i].as_str());
    if vec_eq_str(&a, name) {
        if i < args.len() - 1 {
            proof {
                assert(rest[1] == args@[i + 1]@);
            }
            return ExecHit::Value(args[i + 1].clone(), 2);
        }
        return ExecHit::Missing;
    }
    let mut p = chars_of(name);
    p.push('=');
    assert(p@ =~= name@ + "="@) by {
        reveal_strlit("=");
    }
    if vec_has_prefix(&a, &p) {
        let n = p.len();
        let v = string_of_range(&a, n, a.len());
        assert(a@.subrange(n as int, a@.len() as int) =~= a@.skip(name@.len() + 1int));
        return ExecHit::Value(v, 1);
    }
    ExecHit::Miss
}

/// `"prefix'" + text + "'"`.
fn quoted_message(prefix: &str, text: &String) -> (r: String)
    ensures
        r@ == prefix@ + text@ + "'"@,
{
    let mut out = chars_of(prefix);
    let t = chars_of(text.as_str());
    append_vec(&mut out, &t);
    append_chars(&mut out, "'");
    string_of(&out)
}

/// Reads the trainer's options: `--dataset-dir`, `--manifest`, `--window`,
/// `--train-ratio` and `--out`, each as `--name value` or `--name=value`,
/// the last of each winning; any other argument is an error.
pub fn parse_trainer_args(args: &Vec<String>) -> (r: Result<TrainerArgs, String>)
    ensures
        match r {
            Ok(a) => trainer_options_of(texts(args@)) == Ok::<TrainerScan, Seq<char>>(
                (
                    opt_view(a.dataset_dir),
                    opt_view(a.manifest),
                    a.window as nat,
                    opt_view(a.train_ratio_text),
                    opt_view(a.out),
                ),
            ),
            Err(m) => trainer_options_of(texts(args@)) == Err::<TrainerScan, Seq<char>>(m@),
        },
{
    let ghost all = texts(args@);
    let mut dataset_dir: Option<String> = None;
    let mut manifest: Option<String> = None;
    let mut window: usize = DEFAULT_WINDOW;
    let mut ratio: Option<String> = None;
    let mut out: Option<String> = None;
    let mut i: usize = 0;
    assert(all.skip(0) =~= all);
    while i < args.len()
        invariant
            all == texts(args@),
            i <= args@.len(),
            trainer_scan_from(all, (None, None, DEFAULT_WINDOW as nat, None, None))
                == trainer_scan_from(
                all.skip(i as int),
                (opt_view(dataset_dir), opt_view(manifest), window as nat, opt_view(ratio), opt_view(out)),
            ),
        decreases args@.len() - i,
    {
        let ghost rest = all.skip(i as int);
        let ghost acc = (opt_view(dataset_dir), opt_view(manifest), window as nat, opt_view(ratio), opt_view(out));
        match find_option(args, i, "--dataset-dir") {
            ExecHit::Missing => {
                return Err(String::from_str("--dataset-dir expects a value"));
            },
            ExecHit::Value(v, n) => {
                assert(rest.skip(n as int) =~= all.skip(i + n));
                dataset_dir = Some(v);
                i = i + n;
                continue;
            },
            ExecHit::Miss => {},
        }
        match find_option(args, i, "--manifest") {
            ExecHit::Missing => {
                return Err(String::from_str("--manifest expects a value"));
            },
            ExecHit::Value(v, n) => {
                assert(rest.skip(n as int) =~= all.skip(i + n));
                manifest = Some(v);
                i = i + n;
                continue;
            },
            ExecHit::Miss => {},
        }
        match find_option(args, i, "--window") {
            ExecHit::Missing => {
                return Err(String::from_str("--window expects a value"));
            },
            ExecHit::Value(v, n) => {
                assert(rest.skip(n as int) =~= all.skip(i + n));
                let vc = chars_of(v.as_str());
                match parse_unsigned_chars(&vc, usize::MAX as u64) {
                    Ok(w) => {
                        window = w as usize;
                    },
                    Err(_) => {
                        return Err(quoted_message("invalid --window value '", &v));
                    },
                }
                i = i + n;
                continue;
            },
            ExecHit::Miss => {},
        }
        match find_option(args, i, "--train-ratio") {
            ExecHit::Missing => {
                return Err(String::from_str("--train-ratio expects a value"));
            },
            ExecHit::Value(v, n) => {
                assert(rest.skip(n as int) =~= all.skip(i + n));
                match float_text_check(v.as_str()) {
                    None => {
                        ratio = Some(v);
                    },
                    Some(_) => {
                        return Err(quoted_message("invalid --train-ratio value '", &v));
                    },
                }
                i = i + n;
                continue;
            },
            ExecHit::Miss => {},
        }
        match find_option(args, i, "--out") {
            ExecHit::Missing => {
                return Err(String::from_str("--out expects a value"));
            },
            ExecHit::Value(v, n) => {
                assert(rest.skip(n as int) =~= all.skip(i + n));
                out = Some(v);
                i = i + n;
                continue;
            },
            ExecHit::Miss => {},
        }
        proof {
            assert(rest[0] == args@[i as int]@);
        }
        return Err(quoted_message("unknown argument '", &args[i]));
    }
    assert(all.skip(i as int) =~= Seq::<Seq<char>>::empty());
    if window < 2 {
        return Err(String::from_str("--window must be >= 2"));
    }
    if dataset_dir.is_none() && manifest.is_none() {
        dataset_dir = Some(String::from_str("./experiments/dataset_large"));
    }
    Ok(TrainerArgs { dataset_dir, manifest, window, train_ratio_text: ratio, out })
}

/// The outcome counts of a binary classification.
#[derive(Debug, Clone, Copy, PartialEq, Eq, Structural)]
pub struct ConfusionCounts {
    pub true_positives: u64,
    pub true_negatives: u64,
    pub false_positives: u64,
    pub false_negatives: u64,
}

/// The number of positions where the truth is `t` and the prediction `p`.
pub open spec fn count_pairs(truth: Seq<u8>, pred: Seq<u8>, t: u8, p: u8) -> nat
    decreases truth.len(),
{
    if truth.len() == 0 || pred.len() == 0 {
        0
    } else {
        count_pairs(truth.drop_last(), pred.drop_last(), t, p) + if truth.last() == t
            && pred.last() == p {
            1nat
        } else {
            0nat
        }
    }
}

/// The counts of `binary_metrics`: none when there is nothing to compare or
/// the lengths differ; labels other than 0 and 1 count nowhere.
pub fn confusion_counts(y_true: &[u8], y_pred: &[u8]) -> (r: Option<ConfusionCounts>)
    ensures
        (y_true@.len() == 0 || y_true@.len() != y_pred@.len()) <==> r is None,
        r matches Some(c) ==> {
            &&& c.true_positives as nat == count_pairs(y_true@, y_pred@, 1, 1)
            &&& c.true_negatives as nat == count_pairs(y_true@, y_pred@, 0, 0)
            &&& c.false_positives as nat == count_pairs(y_true@, y_pred@, 0, 1)
            &&& c.false_negatives as nat == count_pairs(y_true@, y_pred@, 1, 0)
        },
{
    if y_true.len() == 0 || y_true.len() != y_pred.len() {
        return None;
    }
    let mut c = ConfusionCounts {
        true_positives: 0,
        true_negatives: 0,
        false_positives: 0,
        false_negatives: 0,
    };
    let mut i: usize = 0;
    while i < y_true.len()
        invariant
            y_true@.len() == y_pred@.len(),
            i <= y_true@.len(),
            c.true_positives as nat == count_pairs(y_true@.take(i as int), y_pred@.take(i as int), 1, 1),
            c.true_negatives as nat == count_pairs(y_true@.take(i as int), y_pred@.take(i as int), 0, 0),
            c.false_positives as nat == count_pairs(y_true@.take(i as int), y_pred@.take(i as int), 0, 1),
            c.false_negatives as nat == count_pairs(y_true@.take(i as int), y_pred@.take(i as int), 1, 0),
            c.true_positives + c.true_negatives + c.false_positives + c.false_negatives <= i,
        decreases y_true@.len() - i,
    {
        proof {
            assert(y_true@.take(i + 1).drop_last() =~= y_true@.take(i as int));
            assert(y_pred@.take(i + 1).drop_last() =~= y_pred@.take(i as int));
            assert(y_true@.take(i + 1).last() == y_true@[i as int]);
            assert(y_pred@.take(i + 1).last() == y_pred@[i as int]);
        }
        let t = y_true[i];
        let p = y_pred[i];
        if t == 1 && p == 1 {
            c.true_positives = c.true_positives + 1;
        } else if t == 0 && p == 0 {
            c.true_negatives = c.true_negatives + 1;
        } else if t == 0 && p == 1 {
            c.false_positives = c.false_positives + 1;
        } else if t == 1 && p == 0 {
            c.false_negatives = c.false_negatives + 1;
        }
        i = i + 1;
    }
    assert(y_true@.take(i as int) =~= y_true@);
    assert(y_pred@.take(i as int) =~= y_pred@);
    Some(c)
}

/// Whether a label occurs among the labels.
pub open spec fn has_label(labels: Seq<u8>, l: u8) -> bool {
    exists|i: int| 0 <= i < labels.len() && labels[i] == l
}

/// What the trainer requires of a split before fitting: enough runs, rows
/// on both sides, and both classes on each side.
pub open spec fn split_problem(run_count: nat, train: Seq<u8>, valid: Seq<u8>) -> Option<Seq<char>> {
    if run_count < 2 {
        Some("need at least 2 runs for train/validation split"@)
    } else if train.len() == 0 || valid.len() == 0 {
        Some("not enough rows after feature-window transform; lower --window or add more data"@)
    } else if !(has_label(train, 1) && has_label(train, 0)) {
        Some("training split has only one class; add more runs per class or adjust --train-ratio"@)
    } else if !(has_label(valid, 1) && has_label(valid, 0)) {
        Some("validation split has only one class; add more runs per class or adjust --train-ratio"@)
    } else {
        None
    }
}

/// Whether a label occurs among the labels.
fn contains_label(labels: &Vec<u8>, l: u8) -> (r: bool)
    ensures
        r == has_label(labels@, l),
{
    let mut i: usize = 0;
    while i < labels.len()
        invariant
            i <= labels@.len(),
            forall|k: int| 0 <= k < i ==> labels@[k] != l,
        decreases labels@.len() - i,
    {
        if labels[i] == l {
            return true;
        }
        i = i + 1;
    }
    false
}

/// Checks a split before fitting, given the number of runs and the labels
/// of the training and validation rows.
pub fn check_training_split(run_count: usize, train_labels: &Vec<u8>, valid_labels: &Vec<u8>) -> (r: Result<(), String>)
    ensures
        match r {
            Ok(_) => split_problem(run_count as nat, train_labels@, valid_labels@) is None,
            Err(m) => split_problem(run_count as nat, train_labels@, valid_labels@) == Some(m@),
        },
{
    if run_count < 2 {
        return Err(String::from_str("need at least 2 runs for train/validation split"));
    }
    if train_labels.len() == 0 || valid_labels.len() == 0 {
        return Err(String::from_str("not enough rows after feature-window transform; lower --window or add more data"));
    }
    if !(contains_label(train_labels, 1) && contains_label(train_labels, 0)) {
        return Err(String::from_str("training split has only one class; add more runs per class or adjust --train-ratio"));
    }
    if !(contains_label(valid_labels, 1) && contains_label(valid_labels, 0)) {
        return Err(String::from_str("validation split has only one class; add more runs per class or adjust --train-ratio"));
    }
    Ok(())
}

/// The paths a manifest lists: its lines trimmed, the empty ones dropped.
pub open spec fn manifest_items(lines: Seq<Seq<char>>) -> Seq<Seq<char>>
    decreases lines.len(),
{
    if lines.len() == 0 {
        Seq::empty()
    } else {
        manifest_items(lines.drop_last()) + kept_piece(lines.last())
    }
}

/// The csv paths a manifest lists, one per line, or the error for a
/// manifest (named `manifest_name` in the message) that lists none.
pub fn csv_paths_from_manifest(content: &str, manifest_name: &str) -> (r: Result<Vec<String>, String>)
    ensures
        match r {
            Ok(v) => {
                &&& manifest_items(text_lines(content@)).len() > 0
                &&& texts(v@) == manifest_items(text_lines(content@))
            },
            Err(m) => {
                &&& manifest_items(text_lines(content@)).len() == 0
                &&& m@ == "manifest '"@ + manifest_name@ + "' contains no csv paths"@
            },
        },
{
    let lines = split_lines(content);
    let mut out: Vec<String> = Vec::new();
    let mut i: usize = 0;
    while i < lines.len()
        invariant
            i <= lines@.len(),
            texts(lines@) == text_lines(content@),
            texts(out@) == manifest_items(texts(lines@).take(i as int)),
        decreases lines@.len() - i,
    {
        let v = chars_of(lines[i].as_str());
        let (a, b) = trim_bounds(&v);
        let ghost before = texts(out@);
        if a < b {
            let t = string_of_range(&v, a, b);
            out.push(t);
        }
        proof {
            let ls = texts(lines@);
            assert(ls.take(i + 1).drop_last() =~= ls.take(i as int));
            assert(ls.take(i + 1).last() == lines@[i as int]@);
            assert(texts(out@) =~= before + kept_piece(v@));
        }
        i = i + 1;
    }
    assert(texts(lines@).take(lines@.len() as int) =~= texts(lines@));
    if out.len() == 0 {
        let mut m = chars_of("manifest '");
        let n = chars_of(manifest_name);
        append_vec(&mut m, &n);
        append_chars(&mut m, "' contains no csv paths");
        return Err(string_of(&m));
    }
    Ok(out)
}


/// The position of the last dot of a file name, `-1` without one.
pub open spec fn last_dot(name: Seq<char>) -> int
    decreases name.len(),
{
    if name.len() == 0 {
        -1
    } else if name.last() == '.' {
        name.len() - 1
    } else {
        last_dot(name.drop_last())
    }
}

/// The extension of a file name as paths read it: what follows the last
/// dot, unless the name has no dot or its only dot starts it.
pub open spec fn extension_of(name: Seq<char>) -> Option<Seq<char>> {
    let k = last_dot(name);
    if k <= 0 {
        None
    } else {
        Some(name.skip(k + 1))
    }
}

/// A file of the data set directory is a csv file.
pub open spec fn is_csv_name(name: Seq<char>) -> bool {
    extension_of(name) == Some("csv"@)
}

proof fn lemma_last_dot(name: Seq<char>)
    ensures
        -1 <= last_dot(name) < name.len(),
        last_dot(name) >= 0 ==> name[last_dot(name)] == '.',
        forall|j: int| last_dot(name) < j < name.len() ==> name[j] != '.',
    decreases name.len(),
{
    if name.len() > 0 && name.last() != '.' {
        lemma_last_dot(name.drop_last());
        assert forall|j: int| last_dot(name) < j < name.len() implies name[j] != '.' by {
            if j < name.len() - 1 {
                assert(name[j] == name.drop_last()[j]);
            }
        }
    }
}

/// Whether a file name has the csv extension.
fn csv_name(name: &str) -> (r: bool)
    ensures
        r == is_csv_name(name@),
{
    let v = chars_of(name);
    let mut k: usize = v.len();
    let mut found = false;
    while k > 0 && !found
        invariant
            k <= v@.len(),
            found ==> k < v@.len() && v@[k as int] == '.',
            forall|j: int| k < j < v@.len() ==> v@[j] != '.',
            !found ==> forall|j: int| k <= j < v@.len() ==> v@[j] != '.',
        decreases k, if found { 0int } else { 1int },
    {
        if v[k - 1] == '.' {
            k = k - 1;
            found = true;
        } else {
            k = k - 1;
        }
    }
    proof {
        lemma_last_dot(v@);
        if found {
            if last_dot(v@) != k {
                if last_dot(v@) > k {
                    assert(v@[last_dot(v@)] == '.');
                } else {
                    assert(v@[k as int] != '.');
                }
            }
        } else {
            if last_dot(v@) >= 0 {
                assert(v@[last_dot(v@)] == '.');
            }
        }
    }
    if !found || k == 0 {
        return false;
    }
    let mut ext: Vec<char> = Vec::new();
    let mut t: usize = k + 1;
    while t < v.len()
        invariant
            k + 1 <= t <= v@.len(),
            ext@ == v@.subrange(k + 1, t as int),
        decreases v@.len() - t,
    {
        ext.push(v[t]);
        t = t + 1;
        assert(ext@ =~= v@.subrange(k + 1, t as int));
    }
    assert(v@.skip(k + 1) =~= v@.subrange(k + 1, v@.len() as int));
    vec_eq_str(&ext, "csv")
}

/// `o` picks out, each once, the entries with the csv extension, whose
/// paths `v` lists in that order.
pub open spec fn lists_csv_paths(o: Seq<usize>, entries: Seq<(String, String)>, v: Seq<String>) -> bool {
    &&& o.len() == v.len()
    &&& forall|k: int|
        0 <= k < o.len() ==> #[trigger] o[k] < entries.len() && is_csv_name(entries[o[k] as int].0@)
            && v[k]@ == entries[o[k] as int].1@
    &&& forall|p: int| 0 <= p < entries.len() && is_csv_name(entries[p].0@) ==> o.contains(p as usize)
    &&& forall|a: int, b: int| 0 <= a < b < o.len() ==> o[a] != o[b]
}

/// The csv files of a data set directory, given its entries as file name
/// and path pairs: the paths of the entries with the csv extension, in
/// order of their text, or the error for a directory (named `dir` in the
/// message) with none.
pub fn csv_paths_from_listing(entries: &Vec<(String, String)>, dir: &str) -> (r: Result<Vec<String>, String>)
    ensures
        match r {
            Ok(v) => {
                &&& v@.len() > 0
                &&& exists|o: Seq<usize>| #[trigger] lists_csv_paths(o, entries@, v@)
                &&& forall|a: int, b: int| 0 <= a < b < v@.len() ==> !text_lt(v@[b]@, v@[a]@)
            },
            Err(m) => {
                &&& forall|p: int| 0 <= p < entries@.len() ==> !is_csv_name(entries@[p].0@)
                &&& m@ == "no csv files found in '"@ + dir@ + "'"@
            },
        },
{
    let n = entries.len();
    let mut pos: Vec<usize> = Vec::new();
    let mut paths: Vec<Vec<char>> = Vec::new();
    let mut i: usize = 0;
    while i < n
        invariant
            n == entries@.len(),
            i <= n,
            paths@.len() == i,
            forall|k: int| 0 <= k < i ==> (#[trigger] paths@[k])@ == entries@[k].1@,
            forall|k: int| 0 <= k < pos@.len() ==> #[trigger] pos@[k] < i && is_csv_name(entries@[pos@[k] as int].0@),
            forall|a: int, b: int| 0 <= a < b < pos@.len() ==> pos@[a] < pos@[b],
            forall|p: int| 0 <= p < i && is_csv_name(entries@[p].0@) ==> pos@.contains(p as usize),
        decreases n - i,
    {
        if csv_name(entries[i].0.as_str()) {
            let ghost before = pos@;
            pos.push(i);
            proof {
                assert forall|p: int| 0 <= p < i && is_csv_name(entries@[p].0@) implies pos@.contains(p as usize) by {
                    let w = choose|w: int| 0 <= w < before.len() && before[w] == p as usize;
                    assert(pos@[w] == p as usize);
                }
                assert(pos@[pos@.len() - 1] == i);
            }
        }
        paths.push(chars_of(entries[i].1.as_str()));
        i = i + 1;
    }
    if pos.len() == 0 {
        proof {
            assert forall|p: int| 0 <= p < entries@.len() implies !is_csv_name(entries@[p].0@) by {
                if is_csv_name(entries@[p].0@) {
                    assert(pos@.contains(p as usize));
                }
            }
        }
        let mut m = chars_of("no csv files found in '");
        append_chars(&mut m, dir);
        append_chars(&mut m, "'");
        return Err(string_of(&m));
    }
    let m = pos.len();
    let ghost within = |a: int, b: int| text_lt(entries@[pos@[a] as int].1@, entries@[pos@[b] as int].1@);
    proof {
        assert forall|a: int| 0 <= a < m implies !#[trigger] within(a, a) by {
            let x = entries@[pos@[a] as int].1@;
            lemma_text_lt_order(x, x, x);
        }
        assert forall|a: int, b: int| 0 <= a < m && 0 <= b < m && #[trigger] within(a, b) implies !within(
            b,
            a,
        ) by {
            lemma_text_lt_order(entries@[pos@[a] as int].1@, entries@[pos@[b] as int].1@, entries@[pos@[a] as int].1@);
        }
        assert forall|a: int, b: int, c: int|
            0 <= a < m && 0 <= b < m && 0 <= c < m && #[trigger] within(a, b) && !within(c, b) implies #[trigger] within(
            a,
            c,
        ) by {
            let (x, y, z) = (entries@[pos@[a] as int].1@, entries@[pos@[b] as int].1@, entries@[pos@[c] as int].1@);
            lemma_text_lt_order(x, y, z);
            lemma_text_lt_order(z, y, x);
        }
    }
    let lt = |a: usize, b: usize| -> (x: bool)
        requires
            a < m,
            b < m,
            m == pos@.len(),
            n == entries@.len(),
            paths@.len() == n,
            forall|k: int| 0 <= k < n ==> (#[trigger] paths@[k])@ == entries@[k].1@,
            forall|k: int| 0 <= k < pos@.len() ==> #[trigger] pos@[k] < n,
        ensures
            x == text_lt(entries@[pos@[a as int] as int].1@, entries@[pos@[b as int] as int].1@),
        { text_less(&paths[pos[a]], &paths[pos[b]]) };
    let o = stable_order(m, lt, Ghost(within));
    let mut out: Vec<String> = Vec::new();
    let mut t: usize = 0;
    while t < m
        invariant
            m == pos@.len(),
            t <= m,
            n == entries@.len(),
            forall|k: int| 0 <= k < pos@.len() ==> #[trigger] pos@[k] < n,
            is_stable_order(o@, within, m as int),
            out@.len() == t,
            forall|k: int| 0 <= k < t ==> (#[trigger] out@[k])@ == entries@[pos@[o@[k] as int] as int].1@,
        decreases m - t,
    {
        out.push(entries[pos[o[t]]].1.clone());
        t = t + 1;
    }
    proof {
        let ord = Seq::new(m as nat, |k: int| pos@[o@[k] as int]);
        assert forall|k: int| 0 <= k < ord.len() implies #[trigger] ord[k] < entries@.len() && is_csv_name(entries@[ord[k] as int].0@) && out@[k]@ == entries@[ord[k] as int].1@ by {}
        assert forall|p: int| 0 <= p < entries@.len() && is_csv_name(entries@[p].0@) implies ord.contains(p as usize) by {
            let w = choose|w: int| 0 <= w < pos@.len() && pos@[w] == p as usize;
            assert(o@.contains(w as usize));
            let v = choose|v: int| 0 <= v < o@.len() && o@[v] == w as usize;
            assert(ord[v] == p as usize);
        }
        assert forall|a: int, b: int| 0 <= a < b < ord.len() implies ord[a] != ord[b] by {
            assert(stably_before(within, o@[a] as int, o@[b] as int));
            let (x, y) = (o@[a] as int, o@[b] as int);
            if x == y {
                let tx = entries@[pos@[x] as int].1@;
                lemma_text_lt_order(tx, tx, tx);
            } else if x < y {
                assert(pos@[x] < pos@[y]);
            } else {
                assert(pos@[y] < pos@[x]);
            }
        }
        assert(lists_csv_paths(ord, entries@, out@));
        assert forall|a: int, b: int| 0 <= a < b < out@.len() implies !text_lt(out@[b]@, out@[a]@) by {
            let (x, y) = (o@[a] as int, o@[b] as int);
            assert(stably_before(within, x, y));
            lemma_text_lt_order(entries@[pos@[x] as int].1@, entries@[pos@[y] as int].1@, entries@[pos@[x] as int].1@);
        }
    }
    Ok(out)
}

} // verus!

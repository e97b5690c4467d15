use rs_fast_one_hot::OneHotEncoder;

fn s(x: &str) -> String {
    x.to_string()
}

#[test]
fn it_works() {
    let ohe = OneHotEncoder::new(
        vec![s("1d"), s("2s"), s("2s"), s("10k")],
        2,
    )
    .unwrap();
    println!("{:?}", ohe);
    let r = ohe.encode(vec![
        s("1d"),
        s("1d"),
        s("1d"),
        s("10k"),
        s("1000"),
        s("10k"),
    ]);
    println!("{:?}", r.col_inds());
    println!("{:?}", r.row_inds());
    println!("{:?}", r.data());
    println!("{:?}", r.shape());
}

#[test]
fn first_seen_ids_inline() {
    let e = OneHotEncoder::new(vec![s("c"), s("a"), s("c"), s("b")], 1).unwrap();
    assert_eq!(e.get_map(), vec![(s("c"), 0), (s("a"), 1), (s("b"), 2)]);
}

#[test]
fn contiguous_ids_inline() {
    let e = OneHotEncoder::new(vec![s("x"), s("y"), s("x"), s("z"), s("y")], 1).unwrap();
    let m = e.get_map();
    assert_eq!(m.len(), 3);
    let mut ids: Vec<usize> = m.iter().map(|p| p.1).collect();
    ids.sort();
    assert_eq!(ids, vec![0, 1, 2]);
}

#[test]
fn round_trip_mapping() {
    let a = OneHotEncoder::new(vec![s("p"), s("q"), s("r"), s("q")], 1).unwrap();
    let snap = a.get_map();
    let b = OneHotEncoder::from_map(snap.clone(), 1).unwrap();
    assert_eq!(b.get_map(), snap);
    assert_eq!(b.get_map(), a.get_map());
}

#[test]
fn encode_inline_exact() {
    let e = OneHotEncoder::from_map(vec![(s("a"), 0), (s("b"), 1)], 1).unwrap();
    let t = e.encode(vec![s("a"), s("x"), s("b"), s("a")]);
    assert_eq!(t.shape(), (4, 2));
    assert_eq!(t.row_inds(), &vec![0usize, 2, 3]);
    assert_eq!(t.col_inds(), &vec![0usize, 1, 0]);
    assert_eq!(t.data(), &vec![1i8, 1, 1]);
}

#[test]
fn empty_batch() {
    let e = OneHotEncoder::from_map(vec![(s("a"), 0), (s("b"), 1)], 1).unwrap();
    let t = e.encode(vec![]);
    assert_eq!(t.shape(), (0, 2));
    assert_eq!(t.row_inds().len(), 0);
    assert_eq!(t.col_inds().len(), 0);
    assert_eq!(t.data().len(), 0);
}

#[test]
fn empty_dictionary() {
    let e = OneHotEncoder::new(vec![], 1).unwrap();
    let t = e.encode(vec![s("a"), s("b")]);
    assert_eq!(t.shape(), (2, 0));
    assert_eq!(t.row_inds().len(), 0);
}

#[test]
fn from_map_adopts_ids_verbatim() {
    let e = OneHotEncoder::from_map(vec![(s("only"), 7)], 1).unwrap();
    let t = e.encode(vec![s("only")]);
    assert_eq!(t.shape(), (1, 1));
    assert_eq!(t.col_inds(), &vec![7usize]);
    assert_eq!(t.row_inds(), &vec![0usize]);
}

#[test]
fn downgrade_idempotent() {
    let corpus = vec![s("a"), s("b"), s("c"), s("a")];
    let mut e = OneHotEncoder::new(corpus.clone(), 3).unwrap();
    e.to_single_thread();
    e.to_single_thread();
    let fresh = OneHotEncoder::new(corpus, 1).unwrap();
    assert_eq!(e.get_map(), fresh.get_map());
    let batch = vec![s("b"), s("zz"), s("a")];
    let t1 = e.encode(batch.clone());
    let t2 = fresh.encode(batch);
    assert_eq!(t1.row_inds(), t2.row_inds());
    assert_eq!(t1.col_inds(), t2.col_inds());
    assert_eq!(t1.data(), t2.data());
    assert_eq!(t1.shape(), t2.shape());
}

#[test]
fn pooled_and_inline_build_agree() {
    let corpus = vec![s("u"), s("v"), s("u"), s("w"), s("v"), s("t")];
    let inline = OneHotEncoder::new(corpus.clone(), 1).unwrap();
    let pooled = OneHotEncoder::new(corpus, 4).unwrap();
    assert_eq!(inline.get_map(), pooled.get_map());
    assert_eq!(pooled.get_map().len(), 4);
}

#[test]
fn pooled_encode_matches_inline() {
    let corpus = vec![s("u"), s("v"), s("w")];
    let inline = OneHotEncoder::new(corpus.clone(), 1).unwrap();
    let pooled = OneHotEncoder::new(corpus, 3).unwrap();
    let batch = vec![s("v"), s("nope"), s("u"), s("w"), s("v")];
    let t1 = inline.encode(batch.clone());
    let t2 = pooled.encode(batch);
    assert_eq!(t1.row_inds(), t2.row_inds());
    assert_eq!(t1.col_inds(), t2.col_inds());
    assert_eq!(t1.data(), t2.data());
    assert_eq!(t1.shape(), t2.shape());
    assert_eq!(t2.row_inds(), &vec![0usize, 2, 3, 4]);
    assert_eq!(t2.col_inds(), &vec![1usize, 0, 2, 1]);
}

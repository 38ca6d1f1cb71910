use vuvuzela::permute::Permutation;

#[test]
fn permute_apply_correct() {
    let pi = Permutation::from_vec(vec![1, 0, 2]);
    let v = vec!['a', 'b', 'c'];
    let w = pi.apply(v);

    assert_eq!(w, vec!['b', 'a', 'c']);
}

#[test]
fn permute_invert_correct() {
    let pi = Permutation::from_vec(vec![2, 0, 1]);
    let v = vec!['a', 'b', 'c'];
    let w = pi.inverse().apply(pi.apply(v));

    assert_eq!(w, vec!['a', 'b', 'c']);

    let rho = Permutation::from_vec(vec![1, 0, 2]);
    let v = vec!['a', 'b', 'c'];
    let w = rho.apply_inverse(rho.apply(v));

    assert_eq!(w, vec!['a', 'b', 'c']);
}

#[test]
fn sampling_empty() {
    let pi = Permutation::sample(0);
    let empty: Vec<()> = vec![];
    assert_eq!(pi.apply(empty.clone()), empty);
}

#[test]
fn permute_sampling_random() {
    let pi = Permutation::sample(100);
    let rho = Permutation::sample(100);

    assert_ne!(pi, rho);
}

#[test]
fn from_sort_correct() {
    let v: Vec<u64> = vec![1, 8, 2, 9, 3, 5, 8, 1, 3];
    let mut v_clone = v.clone();
    let pi = Permutation::from_sort(&mut v_clone);

    assert_eq!(pi.apply(v), v_clone);
}

#[test]
fn from_sort_orders_keys() {
    let mut v: Vec<u64> = vec![4, 4, 1, 0, 7];
    let pi = Permutation::from_sort(&mut v);
    assert_eq!(v, vec![0, 1, 4, 4, 7]);
    assert_eq!(pi.apply(vec![4u64, 4, 1, 0, 7]), v);
}

#[test]
fn apply_inverse_undoes_apply_on_longer_input() {
    let pi = Permutation::sample(17);
    let v: Vec<u32> = (0..17).collect();
    let w = pi.apply(v.clone());
    assert_eq!(pi.apply_inverse(w), v);
    let u = pi.inverse().apply(pi.apply(v.clone()));
    assert_eq!(u, v);
}

use bc_constructor::buffer::Buffer;

fn src() -> Vec<Vec<f64>> {
    vec![
        vec![0., 1., 2., 0.5, 1.5, 10., 20.],
        vec![1., 1.5, 2.5, 1., 2., 11., 21.],
        vec![2., 2., 3., 1.5, 2.5, 12., 22.],
        vec![3., 2.5, 3.5, 2., 3., 13., 23.],
    ]
}

fn src_el() -> Vec<f64> {
    vec![4., 3., 4., 2.5, 3.5, 14., 24.]
}

#[test]
fn buffer_update_res_1() {
    let mut bf = Buffer::new(src());
    let mut res = src();
    bf.update(src_el());
    res.rotate_left(1);
    let l = res.len() - 1;
    res[l] = src_el();
    assert_eq!(bf.0, res);
}

#[test]
fn update_extend_res_1() {
    let mut bf = Buffer::new(src());
    let mut res = src();
    let s = src();
    bf.update_extend(&s);
    res.rotate_left(s.len());
    for _ in 0..s.len() {
        res.pop();
    }
    res.extend_from_slice(&s);
    assert_eq!(bf.0, res);
}

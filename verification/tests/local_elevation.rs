use puckepy::sixring::{alternating_sign, Z_SIZE};

#[test]
fn test_iterating_over_array2() {
    // Iterator over a vector
    let vec1 = vec![0, 1, 2, 3, 4, 5]
        .into_iter()
        .map(|j| (-1_f32).powi(j))
        .collect::<Vec<f32>>();

    // Loop that pushes
    let mut vec2: Vec<f32> = Vec::with_capacity(Z_SIZE);
    for j in 0..6 {
        vec2.push((-1_f32).powi(j))
    }

    // Array
    let vec3: [f32; 6] = [0, 1, 2, 3, 4, 5].map(|j| (-1_f32).powi(j));

    assert_eq!(vec1.iter().sum::<f32>(), vec2.iter().sum());
    assert_eq!(vec2.iter().sum::<f32>(), vec3.iter().sum());

    // The library's signs are these powers of -1.
    for j in 0..Z_SIZE {
        assert_eq!(f32::from(alternating_sign(j)), vec3[j]);
    }
}

use busmem::{split_at_mut, split_at_mut_unchecked};

#[test]
fn split_gives_both_halves() {
    let mut v = vec![1, 2, 3, 4, 5, 6];
    let (a, b) = split_at_mut(&mut v[..], 3);
    assert_eq!(a, &[1, 2, 3]);
    assert_eq!(b, &[4, 5, 6]);
}

#[test]
fn writes_through_the_halves_reach_the_slice() {
    let mut v = vec![1, 2, 3, 4, 5, 6];
    {
        let r = &mut v[..];
        let (a, b) = split_at_mut(r, 3);
        a[0] = 10;
        b[0] = 40;
        assert_eq!(a, &[10, 2, 3]);
        assert_eq!(b, &[40, 5, 6]);
    }
    assert_eq!(v, vec![10, 2, 3, 40, 5, 6]);
}

#[test]
fn split_at_the_ends_gives_an_empty_half() {
    let mut v = vec![7u8, 8, 9];
    {
        let (a, b) = split_at_mut(&mut v[..], 0);
        assert!(a.is_empty());
        assert_eq!(b, &[7, 8, 9]);
    }
    {
        let (a, b) = split_at_mut(&mut v[..], 3);
        assert_eq!(a, &[7, 8, 9]);
        assert!(b.is_empty());
    }
    let mut none: Vec<u8> = Vec::new();
    let (a, b) = split_at_mut(&mut none[..], 0);
    assert!(a.is_empty() && b.is_empty());
}

#[test]
fn unchecked_split_gives_the_same_halves() {
    let mut v = vec!["a", "b", "c", "d"];
    {
        let (a, b) = split_at_mut_unchecked(&mut v[..], 1);
        assert_eq!(a, &["a"]);
        assert_eq!(b, &["b", "c", "d"]);
        b[2] = "z";
        a[0] = "y";
    }
    assert_eq!(v, vec!["y", "b", "c", "z"]);
}

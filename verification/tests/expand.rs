use magneto::{index_degree, DegreeItem, Term};

type Degrees = Term<1, Term<2, Term<3, Term<4, ()>>>>;

#[test]
fn index_walks_the_list() {
    assert_eq!(Degrees::index(0), Some(1));
    assert_eq!(Degrees::index(1), Some(2));
    assert_eq!(Degrees::index(2), Some(3));
    assert_eq!(Degrees::index(3), Some(4));
}

#[test]
fn index_behind_the_list() {
    assert_eq!(Degrees::index(4), Some(0));
    assert_eq!(Degrees::index(5), None);
    assert_eq!(Degrees::index(usize::MAX), None);
}

#[test]
fn index_degree_of_a_tail_and_of_the_empty_list() {
    assert_eq!(index_degree::<Term<3, Term<4, ()>>>(1), Some(4));
    assert_eq!(index_degree::<Term<3, Term<4, ()>>>(2), Some(0));
    assert_eq!(index_degree::<Term<3, Term<4, ()>>>(3), None);
    assert_eq!(index_degree::<()>(0), Some(0));
    assert_eq!(index_degree::<()>(1), None);
}

#[test]
fn constants_of_a_list() {
    assert_eq!(<Degrees as DegreeItem>::DEGREE, 1);
    assert_eq!(<Degrees as DegreeItem>::DIMENSIONS, 4);
    assert_eq!(<Degrees as DegreeItem>::COEFFICIENTS, 2 * 3 * 4 * 5);
    assert_eq!(<Degrees as DegreeItem>::SUMMED_POWERS, 3 * 5 * 7 * 9);
    assert_eq!(<Degrees as DegreeItem>::SUMMED_POWERS, 945);
}

#[test]
fn constants_of_the_empty_list() {
    assert_eq!(<() as DegreeItem>::DEGREE, 0);
    assert_eq!(<() as DegreeItem>::DIMENSIONS, 0);
    assert_eq!(<() as DegreeItem>::COEFFICIENTS, 1);
    assert_eq!(<() as DegreeItem>::SUMMED_POWERS, 1);
}

#[test]
fn quadratic_in_three_variables_has_the_size_of_the_design_vector() {
    type Quadratic = Term<2, Term<2, Term<2, ()>>>;
    assert_eq!(<Quadratic as DegreeItem>::DIMENSIONS, 3);
    assert_eq!(<Quadratic as DegreeItem>::COEFFICIENTS, 27);
    assert_eq!(<Quadratic as DegreeItem>::SUMMED_POWERS, 125);
}

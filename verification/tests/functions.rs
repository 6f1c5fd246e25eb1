use dcalc::functions::Functions;

const ALL: [Functions; 9] = [
    Functions::Sin,
    Functions::Cos,
    Functions::Tan,
    Functions::Arcsin,
    Functions::Arccos,
    Functions::Arctan,
    Functions::SquareRoot,
    Functions::NaturalLog,
    Functions::Secant,
];

#[test]
fn names_round_trip() {
    for f in ALL.iter() {
        assert_eq!(Functions::from_name(f.name()), Some(*f));
    }
}

#[test]
fn names() {
    assert_eq!(Functions::Arcsin.name(), "asin");
    assert_eq!(Functions::SquareRoot.name(), "sqrt");
    assert_eq!(Functions::NaturalLog.name(), "ln");
    assert_eq!(Functions::Secant.name(), "sec");
    assert_eq!(Functions::from_name("cos"), Some(Functions::Cos));
    assert_eq!(Functions::from_name("Cos"), None);
    assert_eq!(Functions::from_name("log"), None);
    assert_eq!(Functions::from_name("sinx"), None);
}

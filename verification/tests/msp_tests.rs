use rabe::errors::RabeError;
use rabe::msp::AbePolicy;
use rabe::parser::parse;
use rabe::policy::PolicyLanguage;

#[test]
fn test_msp_from() {
    let policy = String::from(
        r#"{name:"and", children:[{name:"A"}, {name:"or", "children":[{name:"D"}, {name:"and", "children":[{name:"B"},{name:"C"}]}]} ]}"#,
    );
    let _zero: i8 = 0;
    let _plus: i8 = 1;
    let _minus: i8 = -1;
    let p1 = vec![_plus, _plus, _zero];
    let p2 = vec![_zero, _minus, _plus];
    let p3 = vec![_zero, _zero, _minus];
    let p4 = vec![_zero, _minus, _zero];
    match parse(policy.as_ref(), PolicyLanguage::JsonPolicy) {
        Ok(pol) => {
            let _msp_static = AbePolicy {
                m: vec![p1, p2, p3, p4],
                pi: vec![
                    String::from("A"),
                    String::from("B"),
                    String::from("C"),
                    String::from("D"),
                ],
                c: 3,
            };
            match AbePolicy::from_policy(&pol).ok() {
                None => assert!(false),
                Some(_msp) => {
                    for i in 0..4 {
                        let p = &_msp.m[i];
                        let p_test = &_msp_static.m[i];
                        for j in 0..3 {
                            assert_eq!(p[j], p_test[j]);
                        }
                        assert_eq!(_msp_static.pi[i], _msp.pi[i]);
                    }
                    assert_eq!(_msp_static.c, _msp.c);
                }
            }
        }
        Err(e) => println!("test_msp_from: could not parse policy {:?}", e),
    }
}

#[test]
fn s5_lsss_shape() {
    let policy = String::from(r#""A" and ("D" or ("B" and "C"))"#);
    let msp = AbePolicy::from_language(&policy, PolicyLanguage::HumanPolicy).expect("compile");
    assert_eq!(msp.c, 3);
    assert_eq!(
        msp.pi,
        vec![
            String::from("A"),
            String::from("B"),
            String::from("C"),
            String::from("D"),
        ]
    );
    let expected: Vec<Vec<i8>> = vec![
        vec![1, 1, 0],
        vec![0, -1, 1],
        vec![0, 0, -1],
        vec![0, -1, 0],
    ];
    assert_eq!(msp.m, expected);
}

#[test]
fn msp_to_string_form() {
    let policy = String::from(r#""A" and ("D" or ("B" and "C"))"#);
    let msp = AbePolicy::from_language(&policy, PolicyLanguage::HumanPolicy).expect("compile");
    assert_eq!(
        msp.to_string(),
        "{_m: [(1,1,0),(0,-1,1),(0,0,-1),(0,-1,0)], _pi: [\"A\",\"B\",\"C\",\"D\"], _c: 3}"
    );
}

#[test]
fn pi_is_sorted_and_rows_follow() {
    // the same policy written with the attributes the other way round:
    // the labels come out sorted and the rows travel with their labels
    let policy = String::from(r#""D" or "A""#);
    let msp = AbePolicy::from_language(&policy, PolicyLanguage::HumanPolicy).expect("compile");
    assert_eq!(msp.pi, vec![String::from("A"), String::from("D")]);
    assert_eq!(msp.m, vec![vec![1], vec![1]]);
    assert_eq!(msp.c, 1);

    let policy2 = String::from(r#""D" and "A""#);
    let msp2 = AbePolicy::from_language(&policy2, PolicyLanguage::HumanPolicy).expect("compile");
    assert_eq!(msp2.pi, vec![String::from("A"), String::from("D")]);
    // D is the first child (row (1,1)), A the second (row (0,-1)); sorting
    // by label swaps the rows along with the labels
    assert_eq!(msp2.m, vec![vec![0, -1], vec![1, 1]]);
    assert_eq!(msp2.c, 2);
}

#[test]
fn rejects_and_gate_with_three_children() {
    let policy = String::from(
        r#"{"name": "and", "children": [{"name": "A"}, {"name": "B"}, {"name": "C"}]}"#,
    );
    let pol = parse(&policy, PolicyLanguage::JsonPolicy).expect("parse");
    let r = AbePolicy::from_policy(&pol);
    assert_eq!(r.err(), Some(RabeError::PolicyShape));
}

#[test]
fn single_leaf_policy_compiles() {
    let policy = String::from(r#"{"name": "A"}"#);
    let msp = AbePolicy::new(&policy, PolicyLanguage::JsonPolicy).expect("compile");
    assert_eq!(msp.pi, vec![String::from("A")]);
    assert_eq!(msp.m, vec![vec![1]]);
    assert_eq!(msp.c, 1);
}

#[test]
fn from_language_propagates_the_parse_error() {
    let bad = String::from(r#"{"name" "A"}"#);
    let e1 = parse(&bad, PolicyLanguage::JsonPolicy).err();
    let e2 = AbePolicy::from_language(&bad, PolicyLanguage::JsonPolicy).err();
    let e3 = AbePolicy::new(&bad, PolicyLanguage::JsonPolicy).err();
    assert!(e1.is_some());
    assert_eq!(e1, e2);
    assert_eq!(e1, e3);
}

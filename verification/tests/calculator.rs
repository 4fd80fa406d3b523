use dungeon::parser::evaluate_line;
use dungeon::rpn::{Elt, Error, Op, Stack};

#[test]
fn test_pop_empty1() {
    let mut s = Stack::new();

    let res = s.pop();
    assert!(res.is_err());
    if let Err(Error::Underflow) = res {
    } else {
        assert!(false);
    }
}

#[test]
fn test_pop_empty2() {
    let mut s = Stack::new();
    s.push(Elt::Int(0)).unwrap();

    let res = s.pop();
    assert!(res.is_ok());

    let res = s.pop();
    assert!(res.is_err());
    if let Err(Error::Underflow) = res {
    } else {
        assert!(false);
    }
}

#[test]
fn test_eval_add1() {
    let mut s = Stack::new();
    s.push(Elt::Int(1)).unwrap();
    s.push(Elt::Int(1)).unwrap();

    assert!(s.eval(Op::Add).is_ok());
    assert_eq!(s.pop().unwrap(), Elt::Int(2));
}

#[test]
fn test_eval_add2() {
    let mut s = Stack::new();
    s.push(Elt::Int(1)).unwrap();
    s.push(Elt::Bool(false)).unwrap();

    let res = s.eval(Op::Add);
    assert!(res.is_err());
    if let Err(Error::Type) = res {
    } else {
        assert!(false);
    }
}

#[test]
fn test_eval_add3() {
    let mut s = Stack::new();
    s.push(Elt::Bool(true)).unwrap();
    s.push(Elt::Bool(false)).unwrap();

    let res = s.eval(Op::Add);
    assert!(res.is_err());
    if let Err(Error::Type) = res {
    } else {
        assert!(false);
    }
}

#[test]
fn test_eval_eq1() {
    let mut s = Stack::new();
    s.push(Elt::Int(1)).unwrap();
    s.push(Elt::Int(1)).unwrap();

    assert!(s.eval(Op::Eq).is_ok());
    assert_eq!(s.pop().unwrap(), Elt::Bool(true));
}

#[test]
fn test_eval_eq2() {
    let mut s = Stack::new();
    s.push(Elt::Int(1)).unwrap();
    s.push(Elt::Bool(false)).unwrap();

    let res = s.eval(Op::Eq);
    assert!(res.is_err());
    if let Err(Error::Type) = res {
    } else {
        assert!(false);
    }
}

#[test]
fn test_eval_neg1() {
    let mut s = Stack::new();
    s.push(Elt::Int(1)).unwrap();
    assert!(s.eval(Op::Neg).is_ok());
    assert_eq!(s.pop().unwrap(), Elt::Int(-1));
}

#[test]
fn test_eval_neg2() {
    let mut s = Stack::new();
    s.push(Elt::Bool(false)).unwrap();
    assert!(s.eval(Op::Neg).is_ok());
    assert_eq!(s.pop().unwrap(), Elt::Bool(true));
}

#[test]
fn test_eval_swap1() {
    let mut s = Stack::new();
    s.push(Elt::Int(1)).unwrap();
    s.push(Elt::Bool(false)).unwrap();

    assert!(s.eval(Op::Swap).is_ok());
    assert_eq!(s.pop().unwrap(), Elt::Int(1));
    assert_eq!(s.pop().unwrap(), Elt::Bool(false));

    let res = s.pop();
    assert!(res.is_err());
    if let Err(Error::Underflow) = res {
    } else {
        assert!(false);
    }
}

#[test]
fn test_eval_swap2() {
    let mut s = Stack::new();
    s.push(Elt::Bool(false)).unwrap();

    let res = s.eval(Op::Swap);
    assert!(res.is_err());
    if let Err(Error::Underflow) = res {
    } else {
        assert!(false);
    }
}

#[test]
fn test_eval_rand1() {
    let mut s = Stack::new();
    let i = 20;
    s.push(Elt::Int(i)).unwrap();

    assert!(s.eval(Op::Rand).is_ok());

    let rand_val = s.pop().unwrap();
    assert!(rand_val >= Elt::Int(0));
    assert!(rand_val < Elt::Int(i));
}

#[test]
fn test_eval_rand2() {
    let mut s = Stack::new();
    s.push(Elt::Bool(false)).unwrap();

    let res = s.eval(Op::Rand);
    assert!(res.is_err());
    if let Err(Error::Type) = res {
    } else {
        assert!(false);
    }
}

#[test]
fn test_eval_quit() {
    let mut s = Stack::new();

    let res = s.eval(Op::Quit);
    assert!(res.is_err());
    if let Err(Error::Quit) = res {
    } else {
        assert!(false);
    }
}

#[test]
fn test_evaluate_line_bool() {
    let mut stack = Stack::new();
    let s = "true".to_string();
    assert!(evaluate_line(&mut stack, &s).is_ok());
    assert_eq!(stack.pop().unwrap(), Elt::Bool(true));
    let s = "false".to_string();
    assert!(evaluate_line(&mut stack, &s).is_ok());
    assert_eq!(stack.pop().unwrap(), Elt::Bool(false));
}

#[test]
fn test_evaluate_line_int() {
    let mut stack = Stack::new();
    let s = "12".to_string();
    assert!(evaluate_line(&mut stack, &s).is_ok());
    assert_eq!(stack.pop().unwrap(), Elt::Int(12));
}

#[test]
fn test_evaluate_line_plus() {
    let mut stack = Stack::new();
    let s = "12".to_string();
    assert!(evaluate_line(&mut stack, &s).is_ok());
    let s = "13".to_string();
    assert!(evaluate_line(&mut stack, &s).is_ok());
    let s = "+".to_string();
    assert!(evaluate_line(&mut stack, &s).is_ok());
    assert_eq!(stack.pop().unwrap(), Elt::Int(25));
}

#[test]
fn test_evaluate_line_neg() {
    let mut stack = Stack::new();
    let s = "false".to_string();
    assert!(evaluate_line(&mut stack, &s).is_ok());
    let s = "~".to_string();
    assert!(evaluate_line(&mut stack, &s).is_ok());
    assert_eq!(stack.pop().unwrap(), Elt::Bool(true));
}

#[test]
fn test_evaluate_line_swap() {
    let mut stack = Stack::new();
    let s = "false".to_string();
    assert!(evaluate_line(&mut stack, &s).is_ok());
    let s = "15".to_string();
    assert!(evaluate_line(&mut stack, &s).is_ok());
    let s = "<->".to_string();
    assert!(evaluate_line(&mut stack, &s).is_ok());
    assert_eq!(stack.pop().unwrap(), Elt::Bool(false));
    assert_eq!(stack.pop().unwrap(), Elt::Int(15));
}

#[test]
fn test_evaluate_line_eq() {
    let mut stack = Stack::new();
    let s = "12".to_string();
    assert!(evaluate_line(&mut stack, &s).is_ok());
    let s = "15".to_string();
    assert!(evaluate_line(&mut stack, &s).is_ok());
    let s = "=".to_string();
    assert!(evaluate_line(&mut stack, &s).is_ok());
    assert_eq!(stack.pop().unwrap(), Elt::Bool(false));
}

#[test]
fn test_evaluate_line_rand() {
    let mut stack = Stack::new();
    let s = "12".to_string();
    assert!(evaluate_line(&mut stack, &s).is_ok());
    let s = "#".to_string();
    assert!(evaluate_line(&mut stack, &s).is_ok());
    let res = stack.pop();
    assert!(res.is_ok());
    let res = res.unwrap();
    assert!(res >= Elt::Int(0));
    assert!(res < Elt::Int(12));
}

#[test]
fn test_evaluate_line_quit() {
    let mut stack = Stack::new();
    let s = "quit".to_string();
    let res = evaluate_line(&mut stack, &s);
    assert!(res.is_err());
    if let Err(Error::Quit) = res {
    } else {
        assert!(false);
    }
}

#[test]
fn test_evaluate_line_bad_parse() {
    let mut stack = Stack::new();
    let s = "~false".to_string();
    let res = evaluate_line(&mut stack, &s);
    assert!(res.is_err());
    if let Err(Error::Syntax) = res {
    } else {
        assert!(false);
    }
}

#[test]
fn test_evaluate_line_many_tokens() {
    let mut stack = Stack::new();
    let s = "  12\t13 +  5 ".to_string();
    assert!(evaluate_line(&mut stack, &s).is_ok());
    assert_eq!(stack.pop().unwrap(), Elt::Int(5));
    assert_eq!(stack.pop().unwrap(), Elt::Int(25));
}

#[test]
fn test_evaluate_line_blank() {
    let mut stack = Stack::new();
    let s = "   ".to_string();
    assert!(evaluate_line(&mut stack, &s).is_ok());
    assert!(stack.pop().is_err());
}

#[test]
fn test_evaluate_line_int_bounds() {
    let mut stack = Stack::new();
    let s = "-2147483648".to_string();
    assert!(evaluate_line(&mut stack, &s).is_ok());
    assert_eq!(stack.pop().unwrap(), Elt::Int(i32::MIN));

    // One past the greatest i32 no longer reads as a number.
    let s = "2147483648".to_string();
    let res = evaluate_line(&mut stack, &s);
    if let Err(Error::Syntax) = res {
    } else {
        assert!(false);
    }
}

#[test]
fn test_eval_rand_zero_bound() {
    let mut s = Stack::new();
    s.push(Elt::Int(0)).unwrap();
    let res = s.eval(Op::Rand);
    assert!(res.is_err());
    if let Err(Error::Type) = res {
    } else {
        assert!(false);
    }
}

#[test]
fn test_eval_rand_negative_bound() {
    let mut s = Stack::new();
    s.push(Elt::Int(-20)).unwrap();
    assert!(s.eval(Op::Rand).is_ok());
    let v = s.pop().unwrap();
    assert!(v > Elt::Int(-20));
    assert!(v <= Elt::Int(0));
}

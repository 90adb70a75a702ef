use brainfuck::optimize::Options;
use brainfuck::{Brainfuck, Instruct};

fn instrs(code: &Brainfuck<i32>) -> Vec<Instruct<i32>> {
    let mut v = Vec::new();
    for i in 0..code.len() {
        v.push(code.get(i).unwrap().clone());
    }
    v
}

#[test]
fn constexpr_full_evaluation() {
    let code = Brainfuck::<i32>::from_str("++++++++++.").unwrap();
    let mut o = Options::none();
    o.constexpr = true;
    let (opt, echo) = code.optimize(&o);
    assert_eq!(instrs(&opt), vec![Instruct::WriteStr(vec![10])]);
    assert_eq!(echo, vec![10]);
    let (opt, _) = code.optimize(&Options::all());
    assert_eq!(instrs(&opt), vec![Instruct::WriteStr(vec![10])]);
}

#[test]
fn copy_loop_becomes_add_to() {
    let code = Brainfuck::<i32>::from_str("[->+<]").unwrap();
    let mut o = Options::none();
    o.fold = true;
    o.add_to = true;
    let (opt, _) = code.optimize(&o);
    assert_eq!(instrs(&opt), vec![Instruct::AddTo(1), Instruct::SetValue(0)]);
}

#[test]
fn copy_loop_with_several_targets_is_sorted() {
    let code = Brainfuck::<i32>::from_str("[->>-<<<+>]").unwrap();
    let folded = brainfuck::optimize::fold::optimize(&code);
    let opt = brainfuck::optimize::add_to::optimize(&folded);
    assert_eq!(
        instrs(&opt),
        vec![Instruct::AddTo(-1), Instruct::SubFrom(2), Instruct::SetValue(0)]
    );
}

#[test]
fn loop_that_is_no_copy_loop_stays() {
    let code = Brainfuck::<i32>::from_str("[->+>+<<.]").unwrap();
    let folded = brainfuck::optimize::fold::optimize(&code);
    let opt = brainfuck::optimize::add_to::optimize(&folded);
    assert_eq!(instrs(&opt), instrs(&folded));
}

#[test]
fn zero_loop_then_constant_becomes_set() {
    let code = Brainfuck::<i32>::from_str("[-]+++++").unwrap();
    let mut o = Options::none();
    o.fold = true;
    o.set = true;
    let (opt, _) = code.optimize(&o);
    assert_eq!(instrs(&opt), vec![Instruct::SetValue(5)]);
}

#[test]
fn zero_loop_alone_becomes_set_zero() {
    let code = Brainfuck::<i32>::from_str("+[+]>").unwrap();
    let opt = brainfuck::optimize::set::optimize(&code);
    assert_eq!(instrs(&opt), vec![Instruct::Add(1), Instruct::SetValue(0), Instruct::Move(1)]);
}

#[test]
fn dead_store_is_removed() {
    let code = Brainfuck::<i32>::from_str("+++[-]>").unwrap();
    let mut o = Options::none();
    o.fold = true;
    o.set = true;
    o.deadcode = true;
    o.skip = true;
    let (opt, _) = code.optimize(&o);
    assert_eq!(instrs(&opt), vec![Instruct::SetValue(0), Instruct::Move(1)]);
}

#[test]
fn deadcode_drops_loop_on_zero() {
    let code = Brainfuck::<i32>::from_str("[-][.+]+.").unwrap();
    let set = brainfuck::optimize::set::optimize(&code);
    let opt = brainfuck::optimize::deadcode::optimize(&set);
    assert_eq!(instrs(&opt), vec![Instruct::SetValue(0), Instruct::Add(1), Instruct::Write]);
}

#[test]
fn deadcode_keeps_assignment_after_read() {
    let code = Brainfuck::<i32>::from_str(",[-][.].").unwrap();
    let set = brainfuck::optimize::set::optimize(&code);
    let opt = brainfuck::optimize::deadcode::optimize(&set);
    assert_eq!(instrs(&opt), vec![Instruct::Read, Instruct::SetValue(0), Instruct::Write]);
}

#[test]
fn fold_merges_runs() {
    let code = Brainfuck::<i32>::from_str(">>><+++--+<<>>+-").unwrap();
    let opt = brainfuck::optimize::fold::optimize(&code);
    assert_eq!(instrs(&opt), vec![Instruct::Move(2), Instruct::Add(2)]);
}

#[test]
fn fold_merges_across_cancelled_moves() {
    let code = Brainfuck::<i32>::from_str("+><+").unwrap();
    let opt = brainfuck::optimize::fold::optimize(&code);
    assert_eq!(instrs(&opt), vec![Instruct::Add(2)]);
}

#[test]
fn fold_wraps_additions() {
    let code = Brainfuck::<i8>::from_str(&"+".repeat(256)).unwrap();
    let opt = brainfuck::optimize::fold::optimize(&code);
    assert_eq!(opt.len(), 0);
}

#[test]
fn fold_drops_known_assignment() {
    let mut code = Brainfuck::<i32>::new();
    code.push_set(5);
    code.push_write();
    code.push_set(5);
    code.push_write();
    let opt = brainfuck::optimize::fold::optimize(&code);
    assert_eq!(
        instrs(&opt),
        vec![Instruct::SetValue(5), Instruct::Write, Instruct::Write]
    );
}

#[test]
fn write_coalescing() {
    let code = Brainfuck::<i32>::from_str("[-]++++++++++..[-]+++.").unwrap();
    let mut o = Options::none();
    o.fold = true;
    o.set = true;
    o.write = true;
    let (opt, _) = code.optimize(&o);
    assert_eq!(
        instrs(&opt),
        vec![Instruct::SetValue(3), Instruct::WriteStr(vec![10, 10, 3])]
    );
}

#[test]
fn skip_keeps_store_read_by_loop() {
    let code = Brainfuck::<i32>::from_str("+[.-]").unwrap();
    let set = brainfuck::optimize::set::optimize(&code);
    let opt = brainfuck::optimize::skip::optimize(&set);
    assert_eq!(instrs(&opt), instrs(&set));
}

#[test]
fn find_set_before_walks_back() {
    let mut code = Brainfuck::<i32>::new();
    code.push_set(7);
    code.push_move(1);
    code.push_write();
    code.push_move(-1);
    assert_eq!(code.find_set_before(4), Some(7));
    assert_eq!(code.find_set_before(3), None);
    assert_eq!(code.find_set_before(100), Some(7));
    let code = Brainfuck::<i32>::from_str("[-]>+<").unwrap();
    assert_eq!(code.find_set_before(code.len()), Some(0));
    let code = Brainfuck::<i32>::from_str(",").unwrap();
    assert_eq!(code.find_set_before(1), None);
}

#[test]
fn options_presets() {
    let a = Options::all();
    assert!(a.fold && a.set && a.add_to && a.write && a.deadcode && a.skip && a.constexpr && a.constexpr_echo);
    let n = Options::none();
    assert!(!n.fold && !n.set && !n.add_to && !n.write && !n.deadcode && !n.skip && !n.constexpr);
    assert_eq!(Options::default(), Options::none());
}

#[test]
fn passes_keep_loop_targets_consistent() {
    let code = Brainfuck::<i32>::from_str("++[>+[-]<-]>[[-]>]+[->+<]").unwrap();
    let (opt, _) = code.optimize(&Options::all());
    for i in 0..opt.len() {
        match opt.get(i).unwrap() {
            Instruct::LoopStart(e) => assert_eq!(opt.get(*e - 1), Some(&Instruct::LoopEnd(i))),
            Instruct::LoopEnd(s) => assert_eq!(opt.get(*s), Some(&Instruct::LoopStart(i + 1))),
            _ => {}
        }
    }
}

#[test]
fn constexpr_evaluates_left_of_start() {
    let code = Brainfuck::<i32>::from_str("<+.").unwrap();
    let mut o = Options::none();
    o.constexpr = true;
    let (opt, echo) = code.optimize(&o);
    assert_eq!(instrs(&opt), vec![Instruct::WriteStr(vec![1])]);
    assert_eq!(echo, vec![1]);
}

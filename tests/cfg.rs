use subset_front::cfg::{Cfg, IfBlocks, LoopBlocks, Terminator};

#[test]
fn lower_if_else() {
    // let term = if even { base + 1 } else { base - 1 };
    let mut g = Cfg::new();
    let ib = g.begin_if(7, true);
    assert_eq!(ib, IfBlocks { then_block: 1, else_block: 2, merge: 3 });
    assert_eq!(g.current, 1);
    g.terminate(Terminator::Jump(ib.merge));
    g.switch_to(ib.else_block);
    g.terminate(Terminator::Jump(ib.merge));
    g.switch_to(ib.merge);
    g.terminate(Terminator::Return(Some(9)));
    assert_eq!(
        g.terms,
        vec![
            Terminator::Branch { cond: 7, then_block: 1, else_block: 2 },
            Terminator::Jump(3),
            Terminator::Jump(3),
            Terminator::Return(Some(9)),
        ]
    );
}

#[test]
fn lower_if_without_else_branches_to_merge() {
    let mut g = Cfg::new();
    let ib = g.begin_if(0, false);
    assert_eq!(ib, IfBlocks { then_block: 1, else_block: 2, merge: 2 });
    assert_eq!(g.terms[0], Terminator::Branch { cond: 0, then_block: 1, else_block: 2 });
    assert_eq!(g.terms.len(), 3);
}

#[test]
fn lower_loop_with_break_and_continue() {
    // loop { if (i > 5) { break; } ... }
    let mut g = Cfg::new();
    let lb = g.begin_loop();
    assert_eq!(lb, LoopBlocks { header: 1, body: 2, exit: 3 });
    let ib = g.begin_if(4, false);
    g.terminate(Terminator::Jump(lb.exit));
    g.switch_to(ib.merge);
    g.terminate(Terminator::Jump(lb.header));
    g.switch_to(lb.exit);
    g.terminate(Terminator::Return(None));
    assert_eq!(
        g.terms,
        vec![
            Terminator::Jump(1),
            Terminator::Jump(2),
            Terminator::Branch { cond: 4, then_block: 4, else_block: 5 },
            Terminator::Return(None),
            Terminator::Jump(3),
            Terminator::Jump(1),
        ]
    );
}

#[test]
fn code_after_a_jump_is_unreachable() {
    let mut g = Cfg::new();
    g.terminate(Terminator::Return(None));
    g.terminate(Terminator::Jump(0));
    assert_eq!(g.terms, vec![Terminator::Return(None)]);
}

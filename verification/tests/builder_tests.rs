use cogwise::{BehaviorNode, Decorator, TreeBuilder};

#[test]
fn builder_simple_sequence() {
    let tree: BehaviorNode<u32, u32> = TreeBuilder::new()
        .sequence()
        .action(1u32)
        .action(2u32)
        .end()
        .build();
    match tree {
        BehaviorNode::Sequence(children) => {
            assert_eq!(children.len(), 2);
            assert!(matches!(children[0], BehaviorNode::Action(1)));
            assert!(matches!(children[1], BehaviorNode::Action(2)));
        }
        _ => panic!("expected sequence"),
    }
}

#[test]
fn builder_nested() {
    let tree: BehaviorNode<u32, u32> = TreeBuilder::new()
        .selector()
        .sequence()
        .condition(1u32)
        .action(2u32)
        .end()
        .action(3u32)
        .end()
        .build();
    match tree {
        BehaviorNode::Selector(children) => {
            assert_eq!(children.len(), 2);
            assert!(matches!(children[0], BehaviorNode::Sequence(_)));
            assert!(matches!(children[1], BehaviorNode::Action(3)));
        }
        _ => panic!("expected selector"),
    }
}

#[test]
fn builder_nested_composites() {
    let tree: BehaviorNode<u32, u32> = TreeBuilder::new()
        .sequence()
        .selector()
        .action(1u32)
        .action(2u32)
        .end()
        .wait(1)
        .end()
        .build();
    match tree {
        BehaviorNode::Sequence(children) => {
            assert_eq!(children.len(), 2);
            assert!(matches!(children[0], BehaviorNode::Selector(_)));
            assert!(matches!(children[1], BehaviorNode::Wait(1)));
        }
        _ => panic!("expected sequence"),
    }
}

#[test]
fn builder_with_decorator() {
    let tree: BehaviorNode<u32, u32> = TreeBuilder::new()
        .sequence()
        .decorator(Decorator::Inverter)
        .condition(1u32)
        .end()
        .build();
    match tree {
        BehaviorNode::Sequence(children) => {
            assert_eq!(children.len(), 1);
            match &children[0] {
                BehaviorNode::Decorator { decorator, child } => {
                    assert_eq!(*decorator, Decorator::Inverter);
                    assert!(matches!(**child, BehaviorNode::Condition(1)));
                }
                _ => panic!("expected decorator"),
            }
        }
        _ => panic!("expected sequence"),
    }
}

#[test]
fn builder_weighted_selector() {
    let tree: BehaviorNode<u32, u32> = TreeBuilder::new()
        .weighted_selector()
        .action(1u32)
        .weight(10)
        .action(2u32)
        .weight(1)
        .end()
        .build();
    match tree {
        BehaviorNode::WeightedSelector { children, weights } => {
            assert_eq!(children.len(), 2);
            assert_eq!(weights, vec![10, 1]);
        }
        _ => panic!("expected weighted selector"),
    }
}

#[test]
fn builder_decorator_stack_order() {
    let tree: BehaviorNode<u32, u32> = TreeBuilder::new()
        .decorator(Decorator::Inverter)
        .decorator(Decorator::Repeat(2))
        .action(1u32)
        .build();
    match tree {
        BehaviorNode::Decorator { decorator, child } => {
            assert_eq!(decorator, Decorator::Inverter);
            match *child {
                BehaviorNode::Decorator { decorator, child } => {
                    assert_eq!(decorator, Decorator::Repeat(2));
                    assert!(matches!(*child, BehaviorNode::Action(1)));
                }
                _ => panic!("expected inner decorator"),
            }
        }
        _ => panic!("expected outer decorator"),
    }
}

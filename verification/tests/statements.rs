use leo_asg::span::{Span, Symbol};
use leo_asg::statement::{AssignStatement, Block, ReturnStatement, Statement};

#[test]
fn dummy_is_an_empty_block_with_the_given_span() {
    let span = Span::new(4, 9);
    let st = Statement::dummy(span);
    assert_eq!(
        st,
        Statement::Block(Block {
            statements: Vec::new(),
            span,
        })
    );
    assert_eq!(st.span(), span);
}

#[test]
fn span_dispatches_over_the_kind() {
    let ret = Statement::Return(ReturnStatement {
        span: Span::new(1, 2),
    });
    assert_eq!(ret.span(), Span::new(1, 2));
    let assign = Statement::Assign(Box::new(AssignStatement {
        assignee: Symbol(5),
        span: Span::new(3, 4),
    }));
    assert_eq!(assign.span(), Span::new(3, 4));
}

#[test]
fn set_span_replaces_only_the_span() {
    let mut assign = Statement::Assign(Box::new(AssignStatement {
        assignee: Symbol(5),
        span: Span::new(3, 4),
    }));
    assign.set_span(Span::new(8, 9));
    assert_eq!(assign.span(), Span::new(8, 9));
    assert_eq!(
        assign,
        Statement::Assign(Box::new(AssignStatement {
            assignee: Symbol(5),
            span: Span::new(8, 9),
        }))
    );
}

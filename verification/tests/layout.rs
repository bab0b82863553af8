use imgrids::grid::layout::{cell, col, resolve, row, Node, TextSource};
use imgrids::grid::shapes::ShapesAtlas;

#[derive(Clone)]
struct Hello;

impl TextSource for Hello {
    fn text(&self) -> &'static str {
        "hello"
    }
}

#[test]
fn resolve_splits_by_weight() {
    let r = ShapesAtlas::new(10, 0xFFFF, 0);
    let tree: Node<'_, ShapesAtlas, Hello> =
        row(1, vec![cell(&r, Hello), col(2, vec![cell(&r, Hello), cell(&r, Hello)])]);
    let cells = resolve(&tree, 0, 0, 90, 40);
    assert_eq!(cells.len(), 3);
    assert_eq!((cells[0].x, cells[0].y), (0, 15));
    assert_eq!((cells[1].x, cells[1].y), (30, 5));
    assert_eq!((cells[2].x, cells[2].y), (30, 25));
}

#[test]
fn resolve_gives_last_child_the_remainder() {
    let r = ShapesAtlas::new(2, 0xFFFF, 0);
    let tree: Node<'_, ShapesAtlas, Hello> =
        row(1, vec![cell(&r, Hello), cell(&r, Hello), cell(&r, Hello)]);
    let cells = resolve(&tree, 10, 0, 10, 4);
    assert_eq!(cells.len(), 3);
    assert_eq!((cells[0].x, cells[0].y), (10, 1));
    assert_eq!((cells[1].x, cells[1].y), (13, 1));
    assert_eq!((cells[2].x, cells[2].y), (16, 1));
}

#[test]
fn resolve_weights_columns() {
    let r = ShapesAtlas::new(2, 0xFFFF, 0);
    let tree: Node<'_, ShapesAtlas, Hello> =
        col(1, vec![row(3, vec![cell(&r, Hello)]), row(1, vec![cell(&r, Hello)])]);
    let cells = resolve(&tree, 0, 0, 8, 8);
    assert_eq!(cells.len(), 2);
    assert_eq!((cells[0].x, cells[0].y), (0, 2));
    assert_eq!((cells[1].x, cells[1].y), (0, 6));
}

#[test]
fn cell_redraws_only_when_text_changes() {
    let r = ShapesAtlas::new(2, 0xFFFF, 0);
    let tree: Node<'_, ShapesAtlas, Hello> = row(1, vec![cell(&r, Hello)]);
    let mut cells = resolve(&tree, 0, 0, 20, 2);
    let mut fb = vec![7u16; 40];
    assert!(cells[0].draw(&mut fb, 20));
    assert_eq!(cells[0].last, "hello");
    assert_eq!(fb[21], 0xFFFF);
    assert_eq!(fb[0], 0);
    fb[21] = 7;
    assert!(!cells[0].draw(&mut fb, 20));
    assert_eq!(fb[21], 7);
    cells[0].force_draw(&mut fb, 20);
    assert_eq!(fb[21], 0xFFFF);
    assert_eq!(tree.weight(), 1);
}

#[derive(Clone)]
struct Label(&'static str);

impl TextSource for Label {
    fn text(&self) -> &'static str {
        self.0
    }
}

#[test]
fn resolved_cells_carry_their_own_text_source() {
    let r = ShapesAtlas::new(2, 0xFFFF, 0);
    let tree: Node<'_, ShapesAtlas, Label> =
        row(1, vec![cell(&r, Label("a")), col(1, vec![cell(&r, Label("b")), cell(&r, Label("c"))])]);
    let cells = resolve(&tree, 0, 0, 20, 20);
    let texts: Vec<&str> = cells.iter().map(|c| c.gen.text()).collect();
    assert_eq!(texts, vec!["a", "b", "c"]);
}

use termedit::console::event_bus::Event;
use termedit::layout::bindings::TileBindings;
use termedit::layout::tree::{LayoutTree, SplitDir};
use termedit::markup::parser::{parse_markup, Node};
use termedit::renderer::pipeline::{RenderOp, Renderer};
use termedit::session::snapshot::SessionSnapshot;
use termedit::tabs::TabManager;

fn input(s: &str) -> Event {
    Event::Input(s.to_string())
}

#[test]
fn tabs_answer_events() {
    let mut tabs = TabManager::new();
    assert_eq!(tabs.active_title(), "welcome");
    assert_eq!(tabs.active_id(), Some(1));
    assert!(tabs.has_tab(1));
    assert_eq!(tabs.handle_event(&Event::Tick).unwrap(), "tick active_tab=welcome");
    assert_eq!(
        tabs.handle_event(&input("tab:new notes")).unwrap(),
        "tab created id=2 title=notes"
    );
    assert_eq!(tabs.active_id(), Some(2));
    assert_eq!(tabs.handle_event(&input("tab:list")).unwrap(), "tabs 1:welcome,2:notes");
    assert_eq!(tabs.handle_event(&input("tab:focus  1 ")).unwrap(), "tab focused id=1");
    assert_eq!(tabs.active_title(), "welcome");
    assert_eq!(tabs.handle_event(&input("tab:focus 9")).unwrap(), "tab not found id=9");
    assert_eq!(tabs.handle_event(&input("tab:focus x")).unwrap(), "tab focus invalid");
    assert_eq!(tabs.handle_event(&input("hello")).unwrap(), "input hello");
    assert_eq!(tabs.handle_event(&Event::Shutdown).unwrap(), "shutdown");
    assert!(!tabs.has_tab(9));
}

#[test]
fn tab_new_strips_repeated_prefix() {
    let mut tabs = TabManager::new();
    assert_eq!(
        tabs.handle_event(&input("tab:new tab:new x")).unwrap(),
        "tab created id=2 title=x"
    );
    assert_eq!(tabs.create_tab("y".to_string()), 3);
    assert_eq!(tabs.title_for(2), Some("x".to_string()));
    assert_eq!(tabs.title_for(7), None);
}

#[test]
fn layout_splits_and_focuses() {
    let mut layout = LayoutTree::new();
    assert_eq!(layout.describe(), "active=1 tree=L1");
    assert_eq!(layout.split_active(SplitDir::Vertical), 2);
    assert_eq!(layout.describe(), "active=2 tree=V(L1,L2)");
    assert_eq!(layout.split_active(SplitDir::Horizontal), 3);
    assert_eq!(layout.describe(), "active=3 tree=V(L1,V(L2,L3))");
    assert!(layout.focus(1));
    assert_eq!(layout.active_id(), 1);
    assert!(!layout.focus(9));
    assert_eq!(layout.active_id(), 1);
    assert_eq!(layout.leaf_ids(), vec![1, 2, 3]);
}

#[test]
fn bindings_sorted() {
    let mut b = TileBindings::new(1);
    assert_eq!(b.pairs(), vec![(1, 1)]);
    b.ensure_tiles(&[2, 3, 10, 1], 5);
    assert_eq!(b.pairs(), vec![(1, 1), (2, 5), (3, 5), (10, 5)]);
    assert_eq!(b.describe(), "1->1,10->5,2->5,3->5");
    assert!(b.bind(2, 7));
    assert!(!b.bind(99, 1));
    assert!(b.unbind(3));
    assert!(!b.unbind(3));
    assert_eq!(b.pairs(), vec![(1, 1), (2, 7), (10, 5)]);
}

#[test]
fn markup_tree() {
    let doc = parse_markup("<a> hi <b>x</b></a> tail ");
    assert_eq!(doc.roots.len(), 2);
    match &doc.roots[0] {
        Node::Element { name, children } => {
            assert_eq!(name, "a");
            assert_eq!(children.len(), 2);
            assert!(matches!(&children[0], Node::Text(t) if t == "hi"));
            match &children[1] {
                Node::Element { name, children } => {
                    assert_eq!(name, "b");
                    assert!(matches!(&children[0], Node::Text(t) if t == "x"));
                }
                _ => panic!("expected element"),
            }
        }
        _ => panic!("expected element"),
    }
    assert!(matches!(&doc.roots[1], Node::Text(t) if t == "tail"));
}

#[test]
fn markup_unclosed_and_stray() {
    let doc = parse_markup("</z><a><b>t");
    assert_eq!(doc.roots.len(), 3);
    assert!(matches!(&doc.roots[0], Node::Element { name, children } if name == "z" && children.is_empty()));
    assert!(matches!(&doc.roots[1], Node::Element { name, children } if name == "b" && children.len() == 1));
    assert!(matches!(&doc.roots[2], Node::Element { name, children } if name == "a" && children.is_empty()));
    let open_tag = parse_markup("x<  y ");
    assert_eq!(open_tag.roots.len(), 2);
    assert!(matches!(&open_tag.roots[1], Node::Element { name, .. } if name == "y"));
}

#[test]
fn renderer_ops() {
    let mut r = Renderer::new();
    assert_eq!(
        r.handle_event(&Event::Tick),
        vec![
            RenderOp::FrameBegin,
            RenderOp::Text("render frame=1".to_string()),
            RenderOp::FrameEnd
        ]
    );
    assert_eq!(
        r.handle_event(&input("asm:load.i32 2\nload.i32 -3\nadd\nload.i32 4\nhalt")),
        vec![RenderOp::Text("exec asm halted=true stack=[-1, 4]".to_string())]
    );
    assert_eq!(
        r.handle_event(&input("asm:nop")),
        vec![RenderOp::Text("exec asm halted=false stack=[]".to_string())]
    );
    assert_eq!(
        r.handle_event(&input("markup:<a></a><b>")),
        vec![RenderOp::Text("render markup roots=2".to_string())]
    );
    assert_eq!(
        r.handle_event(&input("hi")),
        vec![RenderOp::Text("render input=hi".to_string())]
    );
    assert_eq!(
        r.handle_event(&Event::Shutdown),
        vec![RenderOp::Text("render shutdown".to_string())]
    );
    match &r.handle_event(&input("sys:help"))[0] {
        RenderOp::Text(t) => assert!(t.starts_with("commands:")),
        _ => panic!("expected text"),
    }
}

#[test]
fn snapshot_json() {
    let mut tabs = TabManager::new();
    tabs.create_tab("n\"b".to_string());
    let mut layout = LayoutTree::new();
    layout.split_active(SplitDir::Horizontal);
    let mut bindings = TileBindings::new(1);
    bindings.ensure_tiles(&layout.leaf_ids(), 2);
    bindings.bind(7, 1);
    let ops = vec![RenderOp::FrameBegin, RenderOp::Text("a\"b".to_string())];
    let snap = SessionSnapshot::from_state(&tabs, 4, &layout, &bindings, &ops);
    assert_eq!(snap.active_tab_title, "n\"b");
    assert_eq!(snap.tiles, vec![1, 2]);
    assert_eq!(snap.last_render_ops, vec!["FrameBegin".to_string(), "Text(\"a\\\"b\")".to_string()]);
    assert_eq!(
        snap.to_json(),
        "{\"frame\":4,\"active_tab\":\"n\\\"b\",\"layout\":\"active=2 tree=H(L1,L2)\",\"active_tile\":2,\"tiles\":[1,2],\"bindings\":\"1->1,2->2\",\"binding_pairs\":[[1,1],[2,2]],\"tile_contexts\":[[1,\"welcome\"],[2,\"n\\\"b\"]],\"render_ops\":[\"FrameBegin\",\"Text(\\\"a\\\\\\\"b\\\")\"]}"
    );
}

use vstd::prelude::*;
use crate::assembly::parser::{parse_program, program_of};
use crate::assembly::vm::{run_from, Vm, VmState};
use crate::console::commands::{help_chars, help_text};
use crate::console::event_bus::Event;
use crate::markup::parser::{markup_of, parse_markup};
use crate::strings::{
    bool_text, decimal, has_prefix, i32_list, push_decimal, push_i32_list, push_str, same_text,
    strip_prefix,
};
use crate::text::lines_of;

verus! {

/// A drawing step.
#[derive(Debug, Clone, PartialEq, Eq)]
pub enum RenderOp {
    FrameBegin,
    FrameEnd,
    Text(String),
}

/// A drawing step as plain values.
pub enum RenderOpView {
    FrameBegin,
    FrameEnd,
    Text(Seq<char>),
}

pub open spec fn op_view(op: RenderOp) -> RenderOpView {
    match op {
        RenderOp::FrameBegin => RenderOpView::FrameBegin,
        RenderOp::FrameEnd => RenderOpView::FrameEnd,
        RenderOp::Text(s) => RenderOpView::Text(s@),
    }
}

/// Counts frames and runs the programs it is sent.
#[derive(Debug, Default)]
pub struct Renderer {
    frame: u64,
    vm: Vm,
}

/// What running the program `source` on a fresh machine reports.
pub open spec fn asm_report(source: Seq<char>) -> Seq<char> {
    let st = run_from(
        program_of(lines_of(source)),
        VmState { stack: Seq::empty(), ip: 0, halted: false },
    );
    "exec asm halted="@ + bool_text(st.halted) + " stack="@ + i32_list(st.stack)
}

/// The text the renderer answers input `text` with: the help for `sys:help`,
/// the number of top-level nodes for `markup:<markup>`, the run of
/// `asm:<program>`, else the input itself.
pub open spec fn input_report(text: Seq<char>) -> Seq<char> {
    if text == "sys:help"@ {
        help_chars()
    } else if has_prefix(text, "markup:"@) {
        "render markup roots="@ + decimal(markup_of(text.skip("markup:"@.len() as int)).len())
    } else if has_prefix(text, "asm:"@) {
        asm_report(text.skip("asm:"@.len() as int))
    } else {
        "render input="@ + text
    }
}

impl Renderer {
    pub closed spec fn frame_spec(&self) -> u64 {
        self.frame
    }

    pub fn new() -> (r: Self)
        ensures
            r.frame_spec() == 0,
    {
        Self { frame: 0, vm: Vm::new() }
    }

    /// The drawing steps for an event: a tick draws the next frame.
    pub fn handle_event(&mut self, event: &Event) -> (ops: Vec<RenderOp>)
        requires
            old(self).frame_spec() < u64::MAX,
        ensures
            match *event {
                Event::Tick => {
                    &&& final(self).frame_spec() == old(self).frame_spec() + 1
                    &&& ops@.map_values(|o: RenderOp| op_view(o)) == seq![
                        RenderOpView::FrameBegin,
                        RenderOpView::Text(
                            "render frame="@ + decimal(final(self).frame_spec() as nat),
                        ),
                        RenderOpView::FrameEnd,
                    ]
                },
                Event::Input(text) => {
                    &&& final(self).frame_spec() == old(self).frame_spec()
                    &&& ops@.map_values(|o: RenderOp| op_view(o)) == seq![
                        RenderOpView::Text(input_report(text@)),
                    ]
                },
                Event::Shutdown => {
                    &&& final(self).frame_spec() == old(self).frame_spec()
                    &&& ops@.map_values(|o: RenderOp| op_view(o)) == seq![
                        RenderOpView::Text("render shutdown"@),
                    ]
                },
            },
    {
        let text = match event {
            Event::Tick => {
                self.frame = self.frame + 1;
                let mut s = "render frame=".to_owned();
                push_decimal(&mut s, self.frame);
                let ops = vec![RenderOp::FrameBegin, RenderOp::Text(s), RenderOp::FrameEnd];
                assert(ops@.map_values(|o: RenderOp| op_view(o)) =~= seq![
                    RenderOpView::FrameBegin,
                    RenderOpView::Text("render frame="@ + decimal(self.frame as nat)),
                    RenderOpView::FrameEnd,
                ]);
                return ops;
            },
            Event::Input(text) => {
                if same_text(text, "sys:help") {
                    help_text().to_owned()
                } else if let Some(markup) = strip_prefix(text.as_str(), "markup:") {
                    let doc = parse_markup(markup.as_str());
                    let mut s = "render markup roots=".to_owned();
                    push_decimal(&mut s, doc.roots.len() as u64);
                    s
                } else if let Some(program) = strip_prefix(text.as_str(), "asm:") {
                    self.vm.reset();
                    let program = parse_program(program.as_str());
                    let result = self.vm.run(&program);
                    let mut s = "exec asm halted=".to_owned();
                    if result.halted {
                        push_str(&mut s, "true");
                    } else {
                        push_str(&mut s, "false");
                    }
                    push_str(&mut s, " stack=");
                    push_i32_list(&mut s, &result.stack);
                    s
                } else {
                    let mut s = "render input=".to_owned();
                    push_str(&mut s, text.as_str());
                    s
                }
            },
            Event::Shutdown => "render shutdown".to_owned(),
        };
        let ops = vec![RenderOp::Text(text)];
        assert(ops@.map_values(|o: RenderOp| op_view(o)) =~= seq![RenderOpView::Text(text@)]);
        ops
    }
}

} // verus!

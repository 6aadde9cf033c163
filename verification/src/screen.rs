//! What the window shows: texts, colours and buttons.
use vstd::prelude::*;

use crate::controller::{
    law_running_counts_each, running, ControllerView, TaskKindView, WslController,
};
use crate::listing::{DistroView, WslDistro};
use crate::state::{Rgb, Rgba, WslState};
use crate::tables::{keeps, KeepAliveTable, TaskTable};
use crate::text::{
    decimal, decimal_text, join2, join4, law_decimal_is_read_back, number_of,
};

verus! {

/// The summary in the header of the window.
#[derive(Debug)]
pub struct Overview {
    pub text: String,
    pub color: Rgb,
    pub fill: Rgba,
}

/// The text of the summary: how many distributions run, of how many.
pub open spec fn overview_text(c: ControllerView) -> Seq<char> {
    decimal(running(c.distros)) + "/"@ + decimal(c.distros.len()) + " 运行中"@
}

/// The colour of the summary: that of a running distribution where one runs,
/// else that of a stopped one.
pub open spec fn overview_color(c: ControllerView) -> Rgb {
    if running(c.distros) > 0 {
        WslState::Running.color_value()
    } else {
        WslState::Stopped.color_value()
    }
}

/// The summary in the header of the window.
pub fn overview_pill(c: &WslController) -> (o: Overview)
    ensures
        o.text@ == overview_text(c@),
        o.color == overview_color(c@),
        o.fill == overview_color(c@).tinted(36),
{
    let n = c.running_count();
    let total = c.distros.len();
    let color = if n > 0 {
        Rgb::new(63, 185, 132)
    } else {
        Rgb::new(166, 172, 185)
    };
    assert(c@.distros.len() == total);
    let text = join4(decimal_text(n).as_str(), "/", decimal_text(total).as_str(), " 运行中");
    Overview { text, color, fill: color.tint(36) }
}

/// The line at the foot of the window.
#[derive(Debug)]
pub struct StatusLine {
    pub text: String,
    pub color: Rgb,
}

/// The text and colour of the line at the foot of the window, if there is one:
/// the last error before the last action.
pub open spec fn status_view(c: ControllerView) -> Option<(Seq<char>, Rgb)> {
    match c.last_error {
        Some(error) => Some((error, Rgb::of(238, 112, 112))),
        None => if c.last_action.len() == 0 {
            None
        } else {
            Some((c.last_action, Rgb::of(172, 181, 194)))
        },
    }
}

/// The line at the foot of the window.
pub fn status_line(c: &WslController) -> (line: Option<StatusLine>)
    ensures
        match line {
            Some(l) => status_view(c@) == Some((l.text@, l.color)),
            None => status_view(c@) is None,
        },
{
    match &c.last_error {
        Some(error) => Some(
            StatusLine { text: error.clone(), color: Rgb::new(238, 112, 112) },
        ),
        None => {
            if c.last_action.as_str().is_empty() {
                None
            } else {
                Some(
                    StatusLine { text: c.last_action.clone(), color: Rgb::new(172, 181, 194) },
                )
            }
        },
    }
}

/// The manner of a button.
#[derive(Debug, Clone, Copy, PartialEq, Eq, Structural)]
pub enum ButtonTone {
    Primary,
    Neutral,
    Danger,
}

/// The colours of a button.
#[derive(Debug, Clone, Copy, PartialEq, Eq, Structural)]
pub struct ButtonPalette {
    pub base_fill: Rgb,
    pub hover_fill: Rgb,
    pub active_fill: Rgb,
    pub stroke: Rgb,
    pub text: Rgb,
}

impl ButtonTone {
    /// The colours of a button of this manner.
    pub open spec fn palette_value(self) -> ButtonPalette {
        match self {
            ButtonTone::Primary => ButtonPalette {
                base_fill: Rgb::of(49, 130, 191),
                hover_fill: Rgb::of(61, 145, 210),
                active_fill: Rgb::of(37, 111, 170),
                stroke: Rgb::of(83, 165, 224),
                text: Rgb::of(245, 250, 255),
            },
            ButtonTone::Neutral => ButtonPalette {
                base_fill: Rgb::of(43, 50, 64),
                hover_fill: Rgb::of(53, 61, 78),
                active_fill: Rgb::of(34, 40, 52),
                stroke: Rgb::of(69, 79, 98),
                text: Rgb::of(220, 228, 238),
            },
            ButtonTone::Danger => ButtonPalette {
                base_fill: Rgb::of(92, 44, 52),
                hover_fill: Rgb::of(113, 52, 62),
                active_fill: Rgb::of(76, 35, 42),
                stroke: Rgb::of(154, 78, 90),
                text: Rgb::of(255, 224, 228),
            },
        }
    }

    /// The colours of a button of this manner.
    pub fn palette(self) -> (p: ButtonPalette)
        ensures
            p == self.palette_value(),
    {
        match self {
            ButtonTone::Primary => ButtonPalette {
                base_fill: Rgb::new(49, 130, 191),
                hover_fill: Rgb::new(61, 145, 210),
                active_fill: Rgb::new(37, 111, 170),
                stroke: Rgb::new(83, 165, 224),
                text: Rgb::new(245, 250, 255),
            },
            ButtonTone::Neutral => ButtonPalette {
                base_fill: Rgb::new(43, 50, 64),
                hover_fill: Rgb::new(53, 61, 78),
                active_fill: Rgb::new(34, 40, 52),
                stroke: Rgb::new(69, 79, 98),
                text: Rgb::new(220, 228, 238),
            },
            ButtonTone::Danger => ButtonPalette {
                base_fill: Rgb::new(92, 44, 52),
                hover_fill: Rgb::new(113, 52, 62),
                active_fill: Rgb::new(76, 35, 42),
                stroke: Rgb::new(154, 78, 90),
                text: Rgb::new(255, 224, 228),
            },
        }
    }
}

/// How a button is painted.
#[derive(Debug, Clone, Copy, PartialEq, Eq, Structural)]
pub struct ButtonLook {
    pub fill: Rgb,
    pub stroke: Rgb,
    pub text: Rgb,
    /// The glow around it, if any.
    pub glow: Option<Rgba>,
    /// The width of its outline, in half points.
    pub outline_halves: u8,
    /// How far it is shifted down, in points.
    pub drop: u8,
}

/// How a button is painted, with the pointer over it or pressing it.
pub open spec fn button_view(tone: ButtonTone, pressed: bool, hovered: bool) -> ButtonLook {
    let p = tone.palette_value();
    ButtonLook {
        fill: if pressed {
            p.active_fill
        } else if hovered {
            p.hover_fill
        } else {
            p.base_fill
        },
        stroke: p.stroke,
        text: p.text,
        glow: if hovered && !pressed {
            Some(p.stroke.tinted(30))
        } else {
            None
        },
        outline_halves: if pressed {
            3
        } else {
            2
        },
        drop: if pressed {
            1
        } else {
            0
        },
    }
}

/// How a button is painted, with the pointer over it or pressing it.
pub fn action_button(tone: ButtonTone, pressed: bool, hovered: bool) -> (look: ButtonLook)
    ensures
        look == button_view(tone, pressed, hovered),
{
    let p = tone.palette();
    let fill = if pressed {
        p.active_fill
    } else if hovered {
        p.hover_fill
    } else {
        p.base_fill
    };
    let glow = if hovered && !pressed {
        Some(p.stroke.tint(30))
    } else {
        None
    };
    let outline_halves: u8 = if pressed {
        3
    } else {
        2
    };
    let drop: u8 = if pressed {
        1
    } else {
        0
    };
    ButtonLook { fill, stroke: p.stroke, text: p.text, glow, outline_halves, drop }
}

/// What a button on the card of a distribution does.
#[derive(Debug, Clone, Copy, PartialEq, Eq, Structural)]
pub enum CardAction {
    Terminate,
    KeepAlive,
    Start,
    Shell,
}

/// A button on the card of a distribution.
#[derive(Debug, Clone, Copy)]
pub struct CardButton {
    pub label: &'static str,
    pub tone: ButtonTone,
    pub tooltip: &'static str,
    pub action: CardAction,
}

/// The contents of a [`CardButton`].
#[verifier::ext_equal]
pub struct CardButtonView {
    pub label: Seq<char>,
    pub tone: ButtonTone,
    pub tooltip: Seq<char>,
    pub action: CardAction,
}

impl View for CardButton {
    type V = CardButtonView;

    open spec fn view(&self) -> CardButtonView {
        CardButtonView {
            label: self.label@,
            tone: self.tone,
            tooltip: self.tooltip@,
            action: self.action,
        }
    }
}

/// The card of a distribution.
#[derive(Debug)]
pub struct DistroCard {
    pub name: String,
    pub tags: Vec<&'static str>,
    pub state_label: &'static str,
    pub state_color: Rgb,
    pub state_fill: Rgba,
    pub version: String,
    /// The buttons, from right to left.
    pub buttons: Vec<CardButton>,
}

/// The contents of a [`DistroCard`].
#[verifier::ext_equal]
pub struct CardView {
    pub name: Seq<char>,
    pub tags: Seq<Seq<char>>,
    pub state_label: Seq<char>,
    pub state_color: Rgb,
    pub state_fill: Rgba,
    pub version: Seq<char>,
    pub buttons: Seq<CardButtonView>,
}

impl View for DistroCard {
    type V = CardView;

    open spec fn view(&self) -> CardView {
        CardView {
            name: self.name@,
            tags: self.tags@.map_values(|s: &'static str| s@),
            state_label: self.state_label@,
            state_color: self.state_color,
            state_fill: self.state_fill,
            version: self.version@,
            buttons: self.buttons@.map_values(|b: CardButton| b@),
        }
    }
}

/// The tags on a card: one for the default distribution, one where a process
/// keeps the distribution running.
pub open spec fn card_tags(is_default: bool, keep_alive: bool) -> Seq<Seq<char>> {
    (if is_default {
        seq!["默认"@]
    } else {
        Seq::empty()
    }) + (if keep_alive {
        seq!["保活中"@]
    } else {
        Seq::empty()
    })
}

/// The buttons on a card, from right to left. Those for tasks that are under
/// way say so.
pub open spec fn card_buttons(starting: bool, closing: bool) -> Seq<CardButtonView> {
    seq![
        CardButtonView {
            label: if closing {
                "关闭中"@
            } else {
                "关闭"@
            },
            tone: ButtonTone::Danger,
            tooltip: "终止该发行版和对应保活进程"@,
            action: CardAction::Terminate,
        },
        CardButtonView {
            label: "保活"@,
            tone: ButtonTone::Neutral,
            tooltip: "接管该发行版并在后台保持运行"@,
            action: CardAction::KeepAlive,
        },
        CardButtonView {
            label: if starting {
                "启动中"@
            } else {
                "启动"@
            },
            tone: ButtonTone::Neutral,
            tooltip: "启动该发行版"@,
            action: CardAction::Start,
        },
        CardButtonView {
            label: "Shell"@,
            tone: ButtonTone::Primary,
            tooltip: "打开该发行版 Shell"@,
            action: CardAction::Shell,
        },
    ]
}

/// The card of a distribution.
pub open spec fn card_view(
    d: DistroView,
    keep_alive: bool,
    starting: bool,
    closing: bool,
) -> CardView {
    CardView {
        name: d.name,
        tags: card_tags(d.is_default, keep_alive),
        state_label: d.state.label_text(),
        state_color: d.state.color_value(),
        state_fill: d.state.color_value().tinted(34),
        version: "WSL "@ + d.version,
        buttons: card_buttons(starting, closing),
    }
}

/// The card of a distribution, which a process may keep running, and whose start
/// or end may be under way.
pub fn distro_card(
    d: &WslDistro,
    keep_alive: bool,
    starting: bool,
    closing: bool,
) -> (card: DistroCard)
    ensures
        card@ == card_view(d@, keep_alive, starting, closing),
        card.name@ == d.name@,
{
    let close_label = if closing {
        "关闭中"
    } else {
        "关闭"
    };
    let start_label = if starting {
        "启动中"
    } else {
        "启动"
    };
    let mut tags: Vec<&'static str> = Vec::new();
    if d.is_default {
        tags.push("默认");
    }
    if keep_alive {
        tags.push("保活中");
    }
    let buttons = vec![
        CardButton {
            label: close_label,
            tone: ButtonTone::Danger,
            tooltip: "终止该发行版和对应保活进程",
            action: CardAction::Terminate,
        },
        CardButton {
            label: "保活",
            tone: ButtonTone::Neutral,
            tooltip: "接管该发行版并在后台保持运行",
            action: CardAction::KeepAlive,
        },
        CardButton {
            label: start_label,
            tone: ButtonTone::Neutral,
            tooltip: "启动该发行版",
            action: CardAction::Start,
        },
        CardButton {
            label: "Shell",
            tone: ButtonTone::Primary,
            tooltip: "打开该发行版 Shell",
            action: CardAction::Shell,
        },
    ];
    let state_color = d.state.color();
    let card = DistroCard {
        name: d.name.clone(),
        tags,
        state_label: d.state.label(),
        state_color,
        state_fill: state_color.tint(34),
        version: join2("WSL ", d.version.as_str()),
        buttons,
    };
    assert(card@.tags =~= card_tags(d.is_default, keep_alive));
    assert(card@.buttons =~= card_buttons(starting, closing));
    card
}

/// The card of a distribution as the tables have it, as far as they could be
/// locked.
pub fn card_of(
    d: &WslDistro,
    tasks: Option<&TaskTable>,
    keep_alive: Option<&KeepAliveTable>,
) -> (card: DistroCard)
    ensures
        card@ == card_view(
            d@,
            keep_alive is Some && keeps(keep_alive->0@, d@.name),
            tasks is Some && tasks->0@.contains(TaskKindView::Start { distro: d@.name }.key()),
            tasks is Some && tasks->0@.contains(TaskKindView::Terminate { distro: d@.name }.key()),
        ),
        card.name@ == d.name@,
        card@.tags.contains("保活中"@) <==> keep_alive is Some && keeps(
            keep_alive->0@,
            d.name@,
        ),
{
    proof {
        law_card_bears_its_distro(
            d@,
            keep_alive is Some && keeps(keep_alive->0@, d@.name),
            tasks is Some && tasks->0@.contains((TaskKindView::Start { distro: d@.name }).key()),
            tasks is Some && tasks->0@.contains(
                (TaskKindView::Terminate { distro: d@.name }).key(),
            ),
        );
    }
    let kept = WslController::keep_alive_running(keep_alive, d.name.as_str());
    let start_key = join2("start:", d.name.as_str());
    let starting = WslController::task_running(tasks, start_key.as_str());
    let close_key = join2("terminate:", d.name.as_str());
    let closing = WslController::task_running(tasks, close_key.as_str());
    distro_card(d, kept, starting, closing)
}

/// What stands in the frame below the header.
#[derive(Debug)]
pub enum DistroList {
    /// This text, where no distribution is known.
    Empty(&'static str),
    /// The cards of the distributions.
    Cards(Vec<DistroCard>),
}

/// What stands in the frame below the header: the cards of the distributions in
/// order, or a text where none is known.
pub fn distro_list(
    c: &WslController,
    tasks: Option<&TaskTable>,
    keep_alive: Option<&KeepAliveTable>,
) -> (list: DistroList)
    ensures
        match list {
            DistroList::Empty(text) => {
                &&& c@.distros.len() == 0
                &&& text@ == "未检测到 WSL 发行版"@
            },
            DistroList::Cards(cards) => {
                &&& c@.distros.len() > 0
                &&& cards.len() == c@.distros.len()
                &&& forall|i: int|
                    0 <= i < cards.len() ==> (#[trigger] cards@[i]).name@ == c.distros@[i].name@
                &&& forall|i: int|
                    0 <= i < cards.len() ==> (#[trigger] cards@[i])@ == card_view(
                        c@.distros[i],
                        keep_alive is Some && keeps(keep_alive->0@, c@.distros[i].name),
                        tasks is Some && tasks->0@.contains(
                            TaskKindView::Start { distro: c@.distros[i].name }.key(),
                        ),
                        tasks is Some && tasks->0@.contains(
                            TaskKindView::Terminate { distro: c@.distros[i].name }.key(),
                        ),
                    )
            },
        },
{
    if c.distros.len() == 0 {
        return DistroList::Empty("未检测到 WSL 发行版");
    }
    let mut cards: Vec<DistroCard> = Vec::new();
    let mut i: usize = 0;
    while i < c.distros.len()
        invariant
            i <= c.distros.len(),
            cards.len() == i,
            forall|k: int| 0 <= k < i ==> (#[trigger] cards@[k]).name@ == c.distros@[k].name@,
            forall|k: int|
                0 <= k < i ==> (#[trigger] cards@[k])@ == card_view(
                    c@.distros[k],
                    keep_alive is Some && keeps(keep_alive->0@, c@.distros[k].name),
                    tasks is Some && tasks->0@.contains(
                        TaskKindView::Start { distro: c@.distros[k].name }.key(),
                    ),
                    tasks is Some && tasks->0@.contains(
                        TaskKindView::Terminate { distro: c@.distros[k].name }.key(),
                    ),
                ),
        decreases c.distros.len() - i,
    {
        assert(c@.distros[i as int] == c.distros@[i as int]@);
        cards.push(card_of(&c.distros[i], tasks, keep_alive));
        i += 1;
    }
    DistroList::Cards(cards)
}

/// A font that has Chinese characters, and the file that holds it.
#[derive(Debug, Clone, Copy)]
pub struct FontCandidate {
    pub name: &'static str,
    pub path: &'static str,
}

/// The names and paths of the fonts to try, the first choice first.
pub open spec fn font_views() -> Seq<(Seq<char>, Seq<char>)> {
    seq![
        ("microsoft_yahei"@, "C:\\Windows\\Fonts\\msyh.ttc"@),
        ("dengxian"@, "C:\\Windows\\Fonts\\Deng.ttf"@),
        ("simhei"@, "C:\\Windows\\Fonts\\simhei.ttf"@),
        ("noto_sans_cjk"@, "C:\\Windows\\Fonts\\NotoSansCJK-Regular.ttc"@),
    ]
}

/// The fonts to try, the first choice first.
pub fn chinese_fonts() -> (v: Vec<FontCandidate>)
    ensures
        v@.map_values(|f: FontCandidate| (f.name@, f.path@)) == font_views(),
{
    let v = vec![
        FontCandidate { name: "microsoft_yahei", path: "C:\\Windows\\Fonts\\msyh.ttc" },
        FontCandidate { name: "dengxian", path: "C:\\Windows\\Fonts\\Deng.ttf" },
        FontCandidate { name: "simhei", path: "C:\\Windows\\Fonts\\simhei.ttf" },
        FontCandidate {
            name: "noto_sans_cjk",
            path: "C:\\Windows\\Fonts\\NotoSansCJK-Regular.ttc",
        },
    ];
    assert(v@.map_values(|f: FontCandidate| (f.name@, f.path@)) =~= font_views());
    v
}

/// A card says that a task is under way exactly while that task keeps itself
/// from being entered again.
pub proof fn law_card_shows_tasks(d: DistroView, tasks: Set<Seq<char>>, keep_alive: bool)
    ensures
        ({
            let start = tasks.contains(TaskKindView::Start { distro: d.name }.key());
            let close = tasks.contains(TaskKindView::Terminate { distro: d.name }.key());
            let buttons = card_view(d, keep_alive, start, close).buttons;
            &&& (buttons[2].label == "启动中"@) == start
            &&& (buttons[0].label == "关闭中"@) == close
        }),
{
    reveal_strlit("启动中");
    reveal_strlit("启动");
    reveal_strlit("关闭中");
    reveal_strlit("关闭");
    assert("启动中"@.len() == 3 && "启动"@.len() == 2);
    assert("关闭中"@.len() == 3 && "关闭"@.len() == 2);
}

/// A card shows every property of its distribution, and whether a process keeps
/// it running: no two that differ in any of these have the same card.
pub proof fn law_card_shows_all(
    a: DistroView,
    keep_a: bool,
    b: DistroView,
    keep_b: bool,
    starting: bool,
    closing: bool,
)
    requires
        card_view(a, keep_a, starting, closing) == card_view(b, keep_b, starting, closing),
    ensures
        a == b,
        keep_a == keep_b,
{
    let x = card_view(a, keep_a, starting, closing);
    let y = card_view(b, keep_b, starting, closing);
    assert(a.version =~= x.version.skip("WSL "@.len() as int));
    assert(b.version =~= y.version.skip("WSL "@.len() as int));
    lemma_labels_differ();
    assert(x.state_label == y.state_label);
    reveal_strlit("默认");
    reveal_strlit("保活中");
    assert("默认"@.len() == 2 && "保活中"@.len() == 3);
    assert(x.tags.len() == y.tags.len());
    if x.tags.len() == 1 {
        assert(x.tags[0] == y.tags[0]);
    }
    assert(a =~= b);
}

proof fn lemma_labels_differ()
    ensures
        forall|s: WslState, t: WslState|
            #[trigger] s.label_text() == #[trigger] t.label_text() ==> s == t,
{
    reveal_strlit("运行中");
    reveal_strlit("已停止");
    reveal_strlit("未知");
    assert("运行中"@[0] == '运' && "已停止"@[0] == '已' && "未知"@[0] == '未');
}

/// A card bears the name of its distribution as the listing has it, the label and
/// colour of its state, and its version in full; it has the tag for the default
/// exactly where it is the default, and that for a process exactly where one
/// keeps it running.
pub proof fn law_card_bears_its_distro(d: DistroView, keep_alive: bool, starting: bool, closing: bool)
    ensures
        ({
            let card = card_view(d, keep_alive, starting, closing);
            &&& card.name == d.name
            &&& card.state_label == d.state.label_text()
            &&& card.state_color == d.state.color_value()
            &&& card.state_fill == d.state.color_value().tinted(34)
            &&& card.version.len() == 4 + d.version.len()
            &&& card.version.skip(4) == d.version
            &&& card.tags.contains("默认"@) <==> d.is_default
            &&& card.tags.contains("保活中"@) <==> keep_alive
            &&& d.is_default && keep_alive ==> card.tags == seq!["默认"@, "保活中"@]
            &&& card.tags.len() == (if d.is_default {
                1int
            } else {
                0
            }) + (if keep_alive {
                1int
            } else {
                0
            })
        }),
{
    let card = card_view(d, keep_alive, starting, closing);
    reveal_strlit("WSL ");
    reveal_strlit("默认");
    reveal_strlit("保活中");
    assert("默认"@.len() == 2 && "保活中"@.len() == 3);
    assert(card.version.skip(4) =~= d.version);
    if d.is_default {
        assert(card.tags[0] == "默认"@);
        if keep_alive {
            assert(card.tags[1] == "保活中"@);
            assert(card.tags =~= seq!["默认"@, "保活中"@]);
        }
    } else if keep_alive {
        assert(card.tags[0] == "保活中"@);
    }
}

/// The words in front of a version are the same for all; the buttons of a card
/// do not depend on its distribution. Each of the four buttons has its own
/// action, and only the labels of those two whose task may be under way depend on
/// anything, each on its own task.
pub proof fn law_cards_are_alike(
    a: DistroView,
    b: DistroView,
    keep_a: bool,
    keep_b: bool,
    starting: bool,
    closing: bool,
    other: bool,
)
    ensures
        ({
            let x = card_view(a, keep_a, starting, closing);
            let y = card_view(b, keep_b, starting, closing);
            &&& x.version.take(4) == y.version.take(4)
            &&& x.buttons == y.buttons
            &&& x.buttons.len() == 4
            &&& x.buttons[0].action == CardAction::Terminate
            &&& x.buttons[1].action == CardAction::KeepAlive
            &&& x.buttons[2].action == CardAction::Start
            &&& x.buttons[3].action == CardAction::Shell
            &&& x.buttons[0].tone == ButtonTone::Danger
        }),
        ({
            let x = card_view(a, keep_a, starting, closing).buttons;
            let y = card_view(b, keep_b, other, closing).buttons;
            let z = card_view(b, keep_b, starting, other).buttons;
            &&& y == x.update(2, y[2])
            &&& z == x.update(0, z[0])
            &&& y[2] == (CardButtonView { label: y[2].label, ..x[2] })
            &&& z[0] == (CardButtonView { label: z[0].label, ..x[0] })
        }),
{
    reveal_strlit("WSL ");
    let x = card_view(a, keep_a, starting, closing);
    let y = card_view(b, keep_b, starting, closing);
    assert(x.version.take(4) =~= "WSL "@);
    assert(y.version.take(4) =~= "WSL "@);
    assert(card_buttons(other, closing) =~= card_buttons(starting, closing).update(
        2,
        card_buttons(other, closing)[2],
    ));
    assert(card_buttons(starting, other) =~= card_buttons(starting, closing).update(
        0,
        card_buttons(starting, other)[0],
    ));
}

/// The line at the foot shows the last error if there is one, else the last
/// action; it is there exactly where there is something to show, and its colour
/// tells errors from actions and depends on nothing else.
pub proof fn law_status_line(c: ControllerView, d: ControllerView)
    ensures
        status_view(c) is None <==> c.last_error is None && c.last_action.len() == 0,
        status_view(c) matches Some((text, _)) ==> text == match c.last_error {
            Some(error) => error,
            None => c.last_action,
        },
        status_view(c) matches Some((_, color)) ==> status_view(d) matches Some((_, other)) ==> (
        color == other <==> c.last_error is Some == d.last_error is Some),
{
}

/// The summary holds the number of distributions that run, a slash, the number of
/// all, and words that are the same for all; its colour tells whether any runs.
pub proof fn law_overview(c: ControllerView)
    ensures
        ({
            let text = overview_text(c);
            let n = decimal(running(c.distros)).len() as int;
            let m = n + 1 + decimal(c.distros.len()).len();
            &&& n + 1 <= m <= text.len()
            &&& number_of(text.take(n)) == running(c.distros)
            &&& text[n] == '/'
            &&& number_of(text.subrange(n + 1, m)) == c.distros.len()
            &&& text.skip(m) == " 运行中"@
        }),
        overview_color(c) == WslState::Running.color_value() <==> exists|i: int|
            0 <= i < c.distros.len() && (#[trigger] c.distros[i]).state == WslState::Running,
        overview_color(c) == WslState::Running.color_value() || overview_color(c)
            == WslState::Stopped.color_value(),
{
    reveal_strlit("/");
    let text = overview_text(c);
    let a = decimal(running(c.distros));
    let b = decimal(c.distros.len());
    let n = a.len() as int;
    let m = n + 1 + b.len();
    law_decimal_is_read_back(running(c.distros));
    law_decimal_is_read_back(c.distros.len());
    assert(text.take(n) =~= a);
    assert(text.subrange(n + 1, m) =~= b);
    assert(text.skip(m) =~= " 运行中"@);
    law_running_counts_each(c.distros, Seq::empty(), arbitrary());
}

/// A pressed button looks the same whether or not the pointer is seen over it,
/// and is lower than others; a glow in the colour of the outline is around just
/// those that the pointer is over and does not press. Outline and text have the
/// same colour however the pointer is.
pub proof fn law_button_look(tone: ButtonTone, pressed: bool, hovered: bool)
    ensures
        ({
            let look = button_view(tone, pressed, hovered);
            let idle = button_view(tone, false, false);
            &&& look.stroke == idle.stroke && look.text == idle.text
            &&& pressed ==> look == button_view(tone, true, !hovered)
            &&& look.glow is Some <==> hovered && !pressed
            &&& look.glow is Some ==> look.glow->0 == look.stroke.tinted(30)
            &&& look.drop == if pressed {
                1u8
            } else {
                0u8
            }
            &&& look.outline_halves == if pressed {
                3u8
            } else {
                2u8
            }
        }),
{
}

/// A button is brighter with the pointer over it and darker when it is pressed,
/// in each channel of its colour; no two manners have a colour in common.
pub proof fn law_button_colours(tone: ButtonTone, other: ButtonTone, pressed: bool, hovered: bool)
    ensures
        ({
            let idle = button_view(tone, false, false).fill;
            let over = button_view(tone, false, true).fill;
            let down = button_view(tone, true, true).fill;
            &&& down.r < idle.r < over.r
            &&& down.g < idle.g < over.g
            &&& down.b < idle.b < over.b
        }),
        ({
            let x = button_view(tone, pressed, hovered);
            let y = button_view(other, pressed, hovered);
            x.fill == y.fill || x.stroke == y.stroke || x.text == y.text ==> tone == other
        }),
{
}

/// Each font is looked for where Windows keeps its fonts, and none twice.
pub proof fn law_fonts(i: int, j: int)
    requires
        0 <= i < j < font_views().len(),
    ensures
        font_views().len() == 4,
        font_views()[i].1.take(17) == "C:\\Windows\\Fonts\\"@,
        font_views()[j].1.take(17) == "C:\\Windows\\Fonts\\"@,
        font_views()[i].0 != font_views()[j].0,
        font_views()[i].1 != font_views()[j].1,
{
    reveal_strlit("C:\\Windows\\Fonts\\");
    reveal_strlit("C:\\Windows\\Fonts\\msyh.ttc");
    reveal_strlit("C:\\Windows\\Fonts\\Deng.ttf");
    reveal_strlit("C:\\Windows\\Fonts\\simhei.ttf");
    reveal_strlit("C:\\Windows\\Fonts\\NotoSansCJK-Regular.ttc");
    reveal_strlit("microsoft_yahei");
    reveal_strlit("dengxian");
    reveal_strlit("simhei");
    reveal_strlit("noto_sans_cjk");
    let dir = "C:\\Windows\\Fonts\\"@;
    assert("C:\\Windows\\Fonts\\msyh.ttc"@.take(17) =~= dir);
    assert("C:\\Windows\\Fonts\\Deng.ttf"@.take(17) =~= dir);
    assert("C:\\Windows\\Fonts\\simhei.ttf"@.take(17) =~= dir);
    assert("C:\\Windows\\Fonts\\NotoSansCJK-Regular.ttc"@.take(17) =~= dir);
    assert("C:\\Windows\\Fonts\\msyh.ttc"@[17] == 'm');
    assert("C:\\Windows\\Fonts\\Deng.ttf"@[17] == 'D');
    assert("C:\\Windows\\Fonts\\simhei.ttf"@[17] == 's');
    assert("C:\\Windows\\Fonts\\NotoSansCJK-Regular.ttc"@[17] == 'N');
    assert("microsoft_yahei"@[0] == 'm' && "dengxian"@[0] == 'd' && "simhei"@[0] == 's'
        && "noto_sans_cjk"@[0] == 'n');
}

/// The contents of a card are those of its parts, one by one.
pub proof fn law_card_contents(card: DistroCard, i: int)
    ensures
        card@.name == card.name@,
        card@.tags.len() == card.tags@.len(),
        0 <= i < card.tags@.len() ==> card@.tags[i] == card.tags@[i]@,
        card@.state_label == card.state_label@,
        card@.state_color == card.state_color,
        card@.state_fill == card.state_fill,
        card@.version == card.version@,
        card@.buttons.len() == card.buttons@.len(),
        0 <= i < card.buttons@.len() ==> {
            &&& card@.buttons[i].label == card.buttons@[i].label@
            &&& card@.buttons[i].tone == card.buttons@[i].tone
            &&& card@.buttons[i].tooltip == card.buttons@[i].tooltip@
            &&& card@.buttons[i].action == card.buttons@[i].action
        },
{
}

} // verus!

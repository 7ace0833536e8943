//! From committed actions to messages for the peers, and from messages of
//! the peers to changes of the drawing.
//!
//! What comes from a peer is applied to the drawing directly and never
//! recorded in the history. Indices in a message refer to the sender's
//! drawing; where the local drawing has no stroke at an index, that part of
//! the message has no effect.

use vstd::prelude::*;
use crate::app::{executed, AppView, PaintApp};
use crate::history::{applied, well_formed};
use crate::models::{
    clone_indices,
    line_of,
    lines_of,
    lines_view,
    strokes_view,
    ActionView,
    Color,
    Line,
    LineView,
    PaintAction,
    SerializableLine,
    StrokeView,
};
use crate::network::{
    clone_pairs,
    events_view,
    ConnectionState,
    DrawingMessage,
    EventView,
    MessageView,
    NetworkEvent,
    NetworkView,
};
use crate::order::{ascending, keyed};
use crate::store::{
    last_position_of,
    lemma_last_position_of,
    move_all,
    move_batch,
    remove_all,
    remove_batch,
    replace_all,
};

verus! {

/// The views of a list of messages.
pub open spec fn messages_view(messages: Seq<DrawingMessage>) -> Seq<MessageView> {
    messages.map_values(|message: DrawingMessage| message@)
}

/// The message that tells of one appended stroke.
pub open spec fn draw_line(stroke: StrokeView) -> MessageView {
    MessageView::DrawLine { points: stroke.points, color: stroke.color, width: stroke.width }
}

/// The messages that tell the peers of a committed action: one `DrawLine`
/// for each stroke of a `Create`, and one message of the same kind for each
/// other action. Of a `Modify` the peers learn the new colours and widths.
pub open spec fn announcements(action: ActionView) -> Seq<MessageView> {
    match action {
        ActionView::Create(strokes) => strokes.map_values(|stroke: StrokeView| draw_line(stroke)),
        ActionView::Delete(indices, _) => seq![MessageView::Delete { indices }],
        ActionView::Modify(indices, _, new_strokes) => seq![
            MessageView::Modify {
                indices,
                colors: new_strokes.map_values(|stroke: StrokeView| stroke.color),
                widths: new_strokes.map_values(|stroke: StrokeView| stroke.width),
            },
        ],
        ActionView::Move(indices, dx, dy) => seq![
            MessageView::Move { indices, delta_x: dx, delta_y: dy },
        ],
    }
}

/// What is to be sent to the peers for a committed action: its
/// announcements while the link is up, nothing otherwise.
pub open spec fn sent(app: AppView, action: ActionView) -> Seq<MessageView> {
    if app.network.state == ConnectionState::Connected {
        announcements(action)
    } else {
        Seq::empty()
    }
}

/// How many entries of a `Modify` message have an index, a colour and a
/// width.
pub open spec fn styled(indices: Seq<usize>, colors: Seq<u32>, widths: Seq<u32>) -> int {
    if indices.len() <= colors.len() && indices.len() <= widths.len() {
        indices.len() as int
    } else if colors.len() <= widths.len() {
        colors.len() as int
    } else {
        widths.len() as int
    }
}

/// The drawing in which every stroke that the message names has the colour
/// and width listed for it, the last ones where it is named more than once.
/// The paths stay.
pub open spec fn restyled(
    s: Seq<LineView>,
    indices: Seq<usize>,
    colors: Seq<u32>,
    widths: Seq<u32>,
) -> Seq<LineView> {
    let named = indices.take(styled(indices, colors, widths));
    Seq::new(
        s.len(),
        |j: int|
            if last_position_of(named, j) >= 0 {
                LineView {
                    points: s[j].points,
                    color: Color::unpacked(colors[last_position_of(named, j)]),
                    width: widths[last_position_of(named, j)],
                }
            } else {
                s[j]
            },
    )
}

/// The drawing after a message from a peer was applied to it. A snapshot
/// leaves the drawing as it is: its text is not read here.
pub open spec fn delivered(store: Seq<LineView>, message: MessageView) -> Seq<LineView> {
    match message {
        MessageView::DrawLine { points, color, width } => store.push(
            line_of(StrokeView { points, color, width }),
        ),
        MessageView::Delete { indices } => remove_all(store, ascending(keyed(indices))),
        MessageView::Modify { indices, colors, widths } => restyled(store, indices, colors, widths),
        MessageView::Move { indices, delta_x, delta_y } => move_all(
            store,
            indices,
            delta_x,
            delta_y,
        ),
        MessageView::Clear => Seq::empty(),
        MessageView::Sync { lines_data } => store,
    }
}

/// The drawing after the messages were applied to it in turn.
pub open spec fn delivered_each(store: Seq<LineView>, messages: Seq<MessageView>) -> Seq<LineView>
    decreases messages.len(),
{
    if messages.len() == 0 {
        store
    } else {
        delivered(delivered_each(store, messages.drop_last()), messages.last())
    }
}

/// The drawing after the messages among the events were applied to it in
/// turn. Other events leave the drawing as it is.
pub open spec fn events_delivered(store: Seq<LineView>, events: Seq<EventView>) -> Seq<LineView>
    decreases events.len(),
{
    if events.len() == 0 {
        store
    } else {
        let earlier = events_delivered(store, events.drop_last());
        match events.last() {
            EventView::MessageReceived(message) => delivered(earlier, message),
            _ => earlier,
        }
    }
}

/// Applying one `DrawLine` for each stroke appends the strokes.
pub proof fn lemma_draw_lines_deliver(store: Seq<LineView>, strokes: Seq<StrokeView>)
    ensures
        delivered_each(store, strokes.map_values(|stroke: StrokeView| draw_line(stroke))) == store
            + lines_of(strokes),
    decreases strokes.len(),
{
    let messages = strokes.map_values(|stroke: StrokeView| draw_line(stroke));
    if strokes.len() == 0 {
        assert(store + lines_of(strokes) =~= store);
    } else {
        let earlier = strokes.drop_last();
        lemma_draw_lines_deliver(store, earlier);
        assert(messages.drop_last() =~= earlier.map_values(|stroke: StrokeView| draw_line(stroke)));
        assert(messages.last() == draw_line(strokes.last()));
        assert(store + lines_of(strokes) =~= (store + lines_of(earlier)).push(
            line_of(strokes.last()),
        ));
    }
}

/// A peer that holds the same drawing and applies the announcements of an
/// action ends with the drawing that the action gives locally. For a
/// `Modify` this holds where the new strokes keep the paths of the strokes
/// they replace, since the peers are told of colours and widths only.
pub proof fn lemma_announcements_deliver(store: Seq<LineView>, action: ActionView)
    requires
        well_formed(action),
        action matches ActionView::Modify(indices, _, new_strokes) ==> forall|i: int|
            0 <= i < indices.len() && #[trigger] indices[i] < store.len() ==> line_of(
                new_strokes[i],
            ).points == store[indices[i] as int].points,
    ensures
        delivered_each(store, announcements(action)) == applied(store, action),
{
    let messages = announcements(action);
    match action {
        ActionView::Create(strokes) => {
            lemma_draw_lines_deliver(store, strokes);
        },
        ActionView::Delete(indices, _) => {
            assert(messages.drop_last().len() == 0);
            assert(delivered_each(store, messages.drop_last()) == store);
        },
        ActionView::Modify(indices, _, new_strokes) => {
            assert(messages.drop_last().len() == 0);
            assert(delivered_each(store, messages.drop_last()) == store);
            let colors = new_strokes.map_values(|stroke: StrokeView| stroke.color);
            let widths = new_strokes.map_values(|stroke: StrokeView| stroke.width);
            let told = restyled(store, indices, colors, widths);
            let done = replace_all(store, indices, lines_of(new_strokes));
            assert(indices.take(indices.len() as int) == indices);
            assert forall|j: int| 0 <= j < store.len() implies #[trigger] told[j] == done[j] by {
                lemma_last_position_of(indices, j);
            }
            assert(told =~= done);
        },
        ActionView::Move(indices, dx, dy) => {
            assert(messages.drop_last().len() == 0);
            assert(delivered_each(store, messages.drop_last()) == store);
        },
    }
}

/// No messages: what an edit hands out that committed nothing.
pub fn nothing_to_send() -> (messages: Vec<DrawingMessage>)
    ensures
        messages_view(messages@) == Seq::<MessageView>::empty(),
{
    let messages: Vec<DrawingMessage> = Vec::new();
    assert(messages_view(messages@) =~= Seq::empty());
    messages
}

/// Builds the message that tells of one appended stroke.
pub fn draw_line_message(stroke: &SerializableLine) -> (message: DrawingMessage)
    ensures
        message@ == draw_line(stroke@),
{
    DrawingMessage::DrawLine {
        points: clone_pairs(&stroke.points),
        color: stroke.color,
        width: stroke.width,
    }
}

/// Builds the messages that tell the peers of a committed action.
pub fn messages_for(action: &PaintAction) -> (messages: Vec<DrawingMessage>)
    ensures
        messages_view(messages@) == announcements(action@),
{
    let mut messages: Vec<DrawingMessage> = Vec::new();
    match action {
        PaintAction::Create(strokes) => {
            let mut i: usize = 0;
            assert(messages_view(messages@) =~= announcements(
                ActionView::Create(strokes_view(strokes@.take(0))),
            ));
            while i < strokes.len()
                invariant
                    i <= strokes.len(),
                    messages_view(messages@) == announcements(
                        ActionView::Create(strokes_view(strokes@.take(i as int))),
                    ),
                decreases strokes.len() - i,
            {
                let ghost before = messages_view(messages@);
                let message = draw_line_message(&strokes[i]);
                messages.push(message);
                assert(messages_view(messages@) =~= before.push(message@));
                assert(strokes_view(strokes@.take(i + 1)) =~= strokes_view(
                    strokes@.take(i as int),
                ).push(strokes[i as int]@));
                assert(messages_view(messages@) =~= announcements(
                    ActionView::Create(strokes_view(strokes@.take(i + 1))),
                ));
                i += 1;
            }
            assert(strokes@.take(i as int) == strokes@);
        },
        PaintAction::Delete(indices, _) => {
            let message = DrawingMessage::Delete { indices: clone_indices(indices) };
            messages.push(message);
            assert(messages_view(messages@) =~= seq![message@]);
        },
        PaintAction::Modify(indices, _, new_strokes) => {
            let mut colors: Vec<u32> = Vec::new();
            let mut widths: Vec<u32> = Vec::new();
            let mut i: usize = 0;
            while i < new_strokes.len()
                invariant
                    i <= new_strokes.len(),
                    colors@ == strokes_view(new_strokes@).take(i as int).map_values(
                        |stroke: StrokeView| stroke.color,
                    ),
                    widths@ == strokes_view(new_strokes@).take(i as int).map_values(
                        |stroke: StrokeView| stroke.width,
                    ),
                decreases new_strokes.len() - i,
            {
                colors.push(new_strokes[i].color);
                widths.push(new_strokes[i].width);
                assert(strokes_view(new_strokes@).take(i + 1) =~= strokes_view(new_strokes@).take(
                    i as int,
                ).push(new_strokes[i as int]@));
                assert(colors@ =~= strokes_view(new_strokes@).take(i + 1).map_values(
                    |stroke: StrokeView| stroke.color,
                ));
                assert(widths@ =~= strokes_view(new_strokes@).take(i + 1).map_values(
                    |stroke: StrokeView| stroke.width,
                ));
                i += 1;
            }
            assert(strokes_view(new_strokes@).take(i as int) == strokes_view(new_strokes@));
            let message = DrawingMessage::Modify {
                indices: clone_indices(indices),
                colors,
                widths,
            };
            messages.push(message);
            assert(messages_view(messages@) =~= seq![message@]);
        },
        PaintAction::Move(indices, dx, dy) => {
            let message = DrawingMessage::Move {
                indices: clone_indices(indices),
                delta_x: *dx,
                delta_y: *dy,
            };
            messages.push(message);
            assert(messages_view(messages@) =~= seq![message@]);
        },
    }
    messages
}

/// Gives the strokes at `indices` the colours and widths listed for them.
pub fn restyle_batch(
    lines: &mut Vec<Line>,
    indices: &Vec<usize>,
    colors: &Vec<u32>,
    widths: &Vec<u32>,
)
    ensures
        lines_view(final(lines)@) == restyled(lines_view(old(lines)@), indices@, colors@, widths@),
{
    let mut count = indices.len();
    if colors.len() < count {
        count = colors.len();
    }
    if widths.len() < count {
        count = widths.len();
    }
    let ghost start = lines_view(lines@);
    let mut i: usize = 0;
    assert(lines_view(lines@) =~= restyled(start, indices@.take(0), colors@, widths@));
    while i < count
        invariant
            i <= count,
            count == styled(indices@, colors@, widths@),
            start == lines_view(old(lines)@),
            lines@.len() == start.len(),
            lines_view(lines@) == restyled(start, indices@.take(i as int), colors@, widths@),
        decreases count - i,
    {
        let index = indices[i];
        let ghost before = lines_view(lines@);
        if index < lines.len() {
            lines[index].color = Color::unpack(colors[i]);
            lines[index].width = widths[i];
        }
        proof {
            let shorter = indices@.take(i as int);
            let longer = indices@.take(i + 1);
            assert(longer.drop_last() == shorter);
            assert(shorter.take(styled(shorter, colors@, widths@)) == shorter);
            assert(longer.take(styled(longer, colors@, widths@)) == longer);
            assert(forall|j: int|
                0 <= j < before.len() && j != index ==> lines_view(lines@)[j] == before[j]);
            let target = restyled(start, longer, colors@, widths@);
            assert forall|j: int| 0 <= j < start.len() implies lines_view(lines@)[j]
                == #[trigger] target[j] by {
                assert(before[j].points == start[j].points);
                if j == index {
                    assert(last_position_of(longer, j) == i);
                    assert(lines_view(lines@)[j] == (LineView {
                        points: before[j].points,
                        color: Color::unpacked(colors@[i as int]),
                        width: widths@[i as int],
                    }));
                } else {
                    assert(last_position_of(longer, j) == last_position_of(shorter, j));
                }
            }
            assert(lines_view(lines@) =~= target);
        }
        i += 1;
    }
    proof {
        let named = indices@.take(count as int);
        assert(named.take(styled(named, colors@, widths@)) == named);
    }
}

/// Applies a message from a peer to the drawing.
pub fn apply_message(lines: &mut Vec<Line>, message: &DrawingMessage)
    ensures
        lines_view(final(lines)@) == delivered(lines_view(old(lines)@), message@),
{
    match message {
        DrawingMessage::DrawLine { points, color, width } => {
            let stroke = SerializableLine {
                points: clone_pairs(points),
                color: *color,
                width: *width,
            };
            let line = Line::from(&stroke);
            let ghost before = lines_view(lines@);
            lines.push(line);
            assert(lines_view(lines@) =~= before.push(line@));
        },
        DrawingMessage::Delete { indices } => {
            remove_batch(lines, indices);
        },
        DrawingMessage::Modify { indices, colors, widths } => {
            restyle_batch(lines, indices, colors, widths);
        },
        DrawingMessage::Move { indices, delta_x, delta_y } => {
            move_batch(lines, indices, *delta_x, *delta_y);
        },
        DrawingMessage::Clear => {
            lines.clear();
            assert(lines_view(lines@) =~= Seq::empty());
        },
        DrawingMessage::Sync { lines_data } => {},
    }
}

impl PaintApp {
    /// Commits a local edit as `execute` does, and hands back what is to be
    /// sent to the peers for it: its announcements while the link is up,
    /// nothing otherwise.
    pub fn commit(&mut self, action: PaintAction) -> (messages: Vec<DrawingMessage>)
        ensures
            final(self)@ == executed(old(self)@, action@),
            messages_view(messages@) == sent(old(self)@, action@),
    {
        let messages = if self.network.is_connected() {
            messages_for(&action)
        } else {
            nothing_to_send()
        };
        self.execute(action);
        messages
    }

    /// Applies a message from a peer to the drawing. The history, the
    /// selection and the clipboard stay as they are.
    pub fn apply_remote(&mut self, message: &DrawingMessage)
        ensures
            final(self)@ == (AppView {
                lines: delivered(old(self)@.lines, message@),
                ..old(self)@
            }),
    {
        apply_message(&mut self.lines, message);
    }

    /// Takes the events that wait at the link and applies the messages
    /// among them to the drawing, oldest first. Returns the events.
    pub fn process_network_events(&mut self) -> (events: Vec<NetworkEvent>)
        ensures
            events_view(events@) == old(self)@.network.events,
            final(self)@ == (AppView {
                lines: events_delivered(old(self)@.lines, old(self)@.network.events),
                network: NetworkView { events: Seq::empty(), ..old(self)@.network },
                ..old(self)@
            }),
    {
        let events = self.network.poll_events();
        let ghost polled = self@;
        let ghost start = self@.lines;
        let mut i: usize = 0;
        while i < events.len()
            invariant
                i <= events.len(),
                start == old(self)@.lines,
                polled == (AppView {
                    network: NetworkView { events: Seq::empty(), ..old(self)@.network },
                    ..old(self)@
                }),
                self@ == (AppView {
                    lines: events_delivered(start, events_view(events@).take(i as int)),
                    ..polled
                }),
            decreases events.len() - i,
        {
            assert(events_view(events@).take(i + 1).drop_last() == events_view(events@).take(
                i as int,
            ));
            match &events[i] {
                NetworkEvent::MessageReceived(message) => {
                    self.apply_remote(message);
                },
                _ => {},
            }
            i += 1;
        }
        assert(events_view(events@).take(i as int) == events_view(events@));
        events
    }
}

} // verus!

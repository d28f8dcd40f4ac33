//! Short messages that are shown for a while. Times are in milliseconds.

use crate::geometry::{Rect, Size};
use crate::style;
use crate::style::{Color, Line, Span, SpanView, Style};
use crate::text;
use vstd::prelude::*;

verus! {

/// How long a notification is shown.
pub const NOTIFICATION_TTL: u64 = 1800;

pub const NOTIFICATION_MIN_WIDTH: u16 = 14;

pub const NOTIFICATION_MAX_WIDTH: u16 = 44;

pub const NOTIFICATION_HEIGHT: u16 = 3;

#[derive(Clone, Copy, Debug, PartialEq, Eq, Structural)]
pub enum NotificationKind {
    Info,
    Success,
    Warning,
    Error,
}

pub open spec fn kind_label(kind: NotificationKind) -> Seq<char> {
    match kind {
        NotificationKind::Info => "info"@,
        NotificationKind::Success => "ok"@,
        NotificationKind::Warning => "wait"@,
        NotificationKind::Error => "error"@,
    }
}

pub open spec fn kind_border_style(kind: NotificationKind) -> Style {
    let color = match kind {
        NotificationKind::Info => Color::DarkGray,
        NotificationKind::Success => Color::Green,
        NotificationKind::Warning => Color::Yellow,
        NotificationKind::Error => Color::LightRed,
    };
    Style { fg: Some(color), ..style::plain() }
}

pub open spec fn kind_body_style(kind: NotificationKind) -> Style {
    let (fg, bg) = match kind {
        NotificationKind::Info => (Color::Gray, Color::Rgb(28, 32, 36)),
        NotificationKind::Success => (Color::White, Color::Rgb(35, 50, 38)),
        NotificationKind::Warning => (Color::White, Color::Rgb(52, 45, 30)),
        NotificationKind::Error => (Color::White, Color::Rgb(58, 35, 35)),
    };
    Style { fg: Some(fg), bg: Some(bg), ..style::plain() }
}

impl NotificationKind {
    pub fn label(self) -> (label: &'static str)
        ensures
            label@ == kind_label(self),
            label.is_ascii(),
            1 < label@.len() < 6,
    {
        proof {
            reveal_strlit("info");
            reveal_strlit("ok");
            reveal_strlit("wait");
            reveal_strlit("error");
        }
        match self {
            NotificationKind::Info => "info",
            NotificationKind::Success => "ok",
            NotificationKind::Warning => "wait",
            NotificationKind::Error => "error",
        }
    }

    pub fn border_style(self) -> (style: Style)
        ensures
            style == kind_border_style(self),
    {
        let color = match self {
            NotificationKind::Info => Color::DarkGray,
            NotificationKind::Success => Color::Green,
            NotificationKind::Warning => Color::Yellow,
            NotificationKind::Error => Color::LightRed,
        };
        Style::default().fg(color)
    }

    pub fn label_style(self) -> (style: Style)
        ensures
            style == (Style { bold: true, ..kind_border_style(self) }),
    {
        self.border_style().bold()
    }

    pub fn body_style(self) -> (style: Style)
        ensures
            style == kind_body_style(self),
    {
        let (fg, bg) = match self {
            NotificationKind::Info => (Color::Gray, Color::Rgb(28, 32, 36)),
            NotificationKind::Success => (Color::White, Color::Rgb(35, 50, 38)),
            NotificationKind::Warning => (Color::White, Color::Rgb(52, 45, 30)),
            NotificationKind::Error => (Color::White, Color::Rgb(58, 35, 35)),
        };
        Style::default().fg(fg).bg(bg)
    }
}

/// A message and the time from which it is no longer shown.
#[derive(Debug, PartialEq, Eq)]
pub struct Notification {
    pub kind: NotificationKind,
    pub message: String,
    pub expires_at: u64,
}

/// A notification, with its text.
pub struct NotificationView {
    pub kind: NotificationKind,
    pub message: Seq<char>,
    pub expires_at: int,
}

impl View for Notification {
    type V = NotificationView;

    open spec fn view(&self) -> NotificationView {
        NotificationView {
            kind: self.kind,
            message: self.message@,
            expires_at: self.expires_at as int,
        }
    }
}

/// What a notification looks like: the size of its box, and the line in it.
#[derive(Debug)]
pub struct NotificationDrawing {
    pub size: Size,
    pub line: Line,
    pub body_style: Style,
    pub border_style: Style,
}

/// The width of a box round a message of the given width, in an area of the given width.
pub open spec fn box_width(kind: NotificationKind, message_width: u16, area_width: u16) -> u16 {
    let wanted = message_width.saturating_add(kind_label(kind).len() as u16).saturating_add(5);
    let width = if wanted < NOTIFICATION_MIN_WIDTH {
        NOTIFICATION_MIN_WIDTH
    } else if wanted > NOTIFICATION_MAX_WIDTH {
        NOTIFICATION_MAX_WIDTH
    } else {
        wanted
    };
    if width < area_width {
        width
    } else {
        area_width
    }
}

/// The label, a space and the message.
pub open spec fn notification_line(kind: NotificationKind, message: Seq<char>) -> Seq<SpanView> {
    seq![
        SpanView {
            content: kind_label(kind),
            style: Style { bold: true, ..kind_border_style(kind) },
        },
        SpanView { content: " "@, style: style::plain() },
        SpanView { content: message, style: style::plain() },
    ]
}

fn notification_width(notification: &Notification, area_width: u16) -> (width: u16)
    ensures
        width == box_width(
            notification.kind,
            text::width_of(notification.message@) as usize as u16,
            area_width,
        ),
{
    let text_width: u16 = text::display_width(notification.message.as_str()) as u16;
    let label_width: u16 = notification.kind.label().unicode_len() as u16;
    let wanted: u16 = text_width.saturating_add(label_width).saturating_add(5);
    let width: u16 = if wanted < NOTIFICATION_MIN_WIDTH {
        NOTIFICATION_MIN_WIDTH
    } else if wanted > NOTIFICATION_MAX_WIDTH {
        NOTIFICATION_MAX_WIDTH
    } else {
        wanted
    };
    if width < area_width {
        width
    } else {
        area_width
    }
}

/// Holds the notification that is shown.
#[derive(Debug)]
pub struct NotificationCenter {
    pub current: Option<Notification>,
}

impl View for NotificationCenter {
    type V = Option<NotificationView>;

    open spec fn view(&self) -> Option<NotificationView> {
        match self.current {
            Some(notification) => Some(notification@),
            None => None,
        }
    }
}

impl Default for NotificationCenter {
    fn default() -> (center: NotificationCenter)
        ensures
            center@ is None,
    {
        NotificationCenter { current: None }
    }
}

/// Whether a notification is over at a time.
pub open spec fn expired(current: Option<NotificationView>, now: int) -> bool {
    match current {
        Some(notification) => now >= notification.expires_at,
        None => false,
    }
}

impl NotificationCenter {
    pub fn new() -> (center: NotificationCenter)
        ensures
            center@ is None,
    {
        NotificationCenter { current: None }
    }

    /// Shows a message from now on, in place of the one shown before.
    pub fn push_at(&mut self, kind: NotificationKind, message: String, now: u64)
        requires
            now + NOTIFICATION_TTL <= u64::MAX,
        ensures
            final(self)@ == Some(
                NotificationView {
                    kind,
                    message: message@,
                    expires_at: now + NOTIFICATION_TTL,
                },
            ),
    {
        self.current = Some(Notification { kind, message, expires_at: now + NOTIFICATION_TTL });
    }

    /// Drops the message when its time is over, and tells whether it did.
    pub fn tick(&mut self, now: u64) -> (changed: bool)
        ensures
            changed == expired(old(self)@, now as int),
            final(self)@ == (if changed {
                None
            } else {
                old(self)@
            }),
    {
        let over = match &self.current {
            Some(notification) => now >= notification.expires_at,
            None => false,
        };
        if over {
            self.current = None;
        }
        over
    }

    /// How long the message is still shown.
    pub fn next_deadline(&self, now: u64) -> (left: Option<u64>)
        ensures
            match self@ {
                Some(notification) => left == Some(
                    (notification.expires_at as u64).saturating_sub(now),
                ),
                None => left is None,
            },
    {
        match &self.current {
            Some(notification) => Some(notification.expires_at.saturating_sub(now)),
            None => None,
        }
    }

    pub fn current_message(&self) -> (message: Option<&str>)
        ensures
            match message {
                Some(message) => self@ is Some && message@ == self@->0.message,
                None => self@ is None,
            },
    {
        match &self.current {
            Some(notification) => Some(notification.message.as_str()),
            None => None,
        }
    }

    /// What is drawn into an area.
    pub fn render(&self, area: Rect) -> (drawing: Option<NotificationDrawing>)
        ensures
            drawing is Some <==> self@ is Some && !area.empty(),
            drawing matches Some(drawing) ==> {
                let notification = self@->0;
                &&& drawing.size.width == box_width(
                    notification.kind,
                    text::width_of(notification.message) as usize as u16,
                    area.width,
                )
                &&& drawing.size.height == if NOTIFICATION_HEIGHT < area.height {
                    NOTIFICATION_HEIGHT
                } else {
                    area.height
                }
                &&& drawing.line@ == notification_line(notification.kind, notification.message)
                &&& drawing.body_style == kind_body_style(notification.kind)
                &&& drawing.border_style == kind_border_style(notification.kind)
            },
    {
        let notification = match &self.current {
            Some(notification) => notification,
            None => {
                return None;
            },
        };
        if area.is_empty() {
            return None;
        }
        let width: u16 = notification_width(notification, area.width);
        let height: u16 = if NOTIFICATION_HEIGHT < area.height {
            NOTIFICATION_HEIGHT
        } else {
            area.height
        };
        let kind = notification.kind;
        let mut spans: Vec<Span> = Vec::new();
        spans.push(Span::styled(kind.label().to_owned(), kind.label_style()));
        spans.push(Span::styled(" ".to_owned(), Style::default()));
        spans.push(Span::styled(notification.message.clone(), Style::default()));
        let line = Line { spans };
        assert(line@ =~= notification_line(kind, notification.message@));
        Some(
            NotificationDrawing {
                size: Size::new(width, height),
                line,
                body_style: kind.body_style(),
                border_style: kind.border_style(),
            },
        )
    }
}

/// A notification pushed at a time is over from `NOTIFICATION_TTL` later on, and not before.
pub proof fn law_notification_lives_for_its_time(
    kind: NotificationKind,
    message: Seq<char>,
    pushed: int,
    now: int,
)
    ensures
        expired(
            Some(NotificationView { kind, message, expires_at: pushed + NOTIFICATION_TTL }),
            now,
        ) <==> now - pushed >= NOTIFICATION_TTL,
{
}

/// The box of a notification is never wider than the area that it is in.
pub proof fn law_notification_fits(kind: NotificationKind, message_width: u16, area_width: u16)
    ensures
        box_width(kind, message_width, area_width) <= area_width,
        box_width(kind, message_width, area_width) <= NOTIFICATION_MAX_WIDTH,
{
}

/// A notification reads as what it is, a space and its message.
pub proof fn law_notification_reads_label_and_message(kind: NotificationKind, message: Seq<char>)
    ensures
        style::plain_text(notification_line(kind, message)) == kind_label(kind) + " "@ + message,
        kind_label(NotificationKind::Info) == "info"@,
        kind_label(NotificationKind::Success) == "ok"@,
        kind_label(NotificationKind::Warning) == "wait"@,
        kind_label(NotificationKind::Error) == "error"@,
{
    reveal_with_fuel(style::spans_text, 4);
    assert(style::plain_text(notification_line(kind, message)) =~= kind_label(kind) + " "@
        + message);
}

/// A notification is shown for 1800 milliseconds from when it was pushed.
pub proof fn law_notification_is_shown_for_a_while(notification: NotificationView, pushed: int, now: int)
    requires
        notification.expires_at == pushed + NOTIFICATION_TTL,
    ensures
        pushed <= now < pushed + 1800 ==> !expired(Some(notification), now),
        now >= pushed + 1800 ==> expired(Some(notification), now),
        !expired(None, now),
{
}

/// The box of a notification has room for its label, its message and five columns round them, but
/// it is at least 14 and at most 44 columns wide, and never wider than the area.
pub proof fn law_notification_box_has_room(
    kind: NotificationKind,
    message_width: u16,
    area_width: u16,
)
    requires
        message_width <= 1000,
    ensures
        ({
            let wanted = message_width + kind_label(kind).len() + 5;
            let width = box_width(kind, message_width, area_width);
            &&& area_width >= 44 ==> {
                &&& 14 <= wanted <= 44 ==> width == wanted
                &&& wanted < 14 ==> width == 14
                &&& wanted > 44 ==> width == 44
            }
            &&& area_width < 14 ==> width == area_width
            &&& width <= area_width
            &&& area_width >= 14 ==> width >= 14
        }),
{
    reveal_strlit("info");
    reveal_strlit("ok");
    reveal_strlit("wait");
    reveal_strlit("error");
}

/// Notifications of different kinds look different.
pub proof fn law_kinds_look_different(kind: NotificationKind, other: NotificationKind)
    requires
        kind != other,
    ensures
        kind_border_style(kind).fg != kind_border_style(other).fg,
        kind_body_style(kind).bg != kind_body_style(other).bg,
{
}

} // verus!

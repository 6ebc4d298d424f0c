//! What the engine knows of a chat platform.
//!
//! A message carries a routing context that only its platform understands; a
//! message that can still be edited is known by a handle. Both are closed
//! families here: one variant for each platform.

use crate::discord::{DiscordPreviewHandle, DiscordReplyCtx, InteractionReplyCtx};
use crate::feishu::{FeishuPreviewHandle, FeishuReplyCtx};
use crate::telegram::{TelegramPreviewHandle, TelegramReplyCtx};
use vstd::prelude::*;

verus! {

/// A routing context, looked at by its platform's own type.
pub enum AnyCtx<'a> {
    Discord(&'a DiscordReplyCtx),
    Interaction(&'a InteractionReplyCtx),
    Feishu(&'a FeishuReplyCtx),
    Telegram(&'a TelegramReplyCtx),
}

/// A routing context of whichever platform.
pub enum ReplyTarget {
    Discord(DiscordReplyCtx),
    Interaction(InteractionReplyCtx),
    Feishu(FeishuReplyCtx),
    Telegram(TelegramReplyCtx),
}

/// What a [`ReplyTarget`] holds.
pub enum TargetModel {
    Discord((Seq<char>, Option<Seq<char>>, Option<Seq<char>>)),
    Interaction((Seq<char>, Seq<char>, Seq<char>, bool)),
    Feishu((Seq<char>, Option<Seq<char>>)),
    Telegram(TelegramReplyCtx),
}

impl View for ReplyTarget {
    type V = TargetModel;

    open spec fn view(&self) -> TargetModel {
        match *self {
            ReplyTarget::Discord(c) => TargetModel::Discord(c@),
            ReplyTarget::Interaction(c) => TargetModel::Interaction(c@),
            ReplyTarget::Feishu(c) => TargetModel::Feishu(c@),
            ReplyTarget::Telegram(c) => TargetModel::Telegram(c@),
        }
    }
}

/// A routing context that sessions can be keyed by.
pub trait ReplyCtx {
    /// The session key that this context stands for.
    spec fn key_hint(&self) -> Seq<char>;

    /// This context among those of all platforms.
    spec fn target(&self) -> ReplyTarget;

    /// The context by its platform's own type.
    fn as_any(&self) -> (r: AnyCtx<'_>)
        ensures
            r == match self.target() {
                ReplyTarget::Discord(c) => AnyCtx::Discord(&c),
                ReplyTarget::Interaction(c) => AnyCtx::Interaction(&c),
                ReplyTarget::Feishu(c) => AnyCtx::Feishu(&c),
                ReplyTarget::Telegram(c) => AnyCtx::Telegram(&c),
            },
    ;

    /// Human-readable hint used to derive the session key for this context.
    fn session_key_hint(&self) -> (r: String)
        ensures
            r@ == self.key_hint(),
    ;

    /// A copy of this context, of the same platform.
    fn clone_box(&self) -> (r: Box<ReplyTarget>)
        ensures
            (*r)@ == self.target()@,
    ;
}

impl ReplyCtx for ReplyTarget {
    open spec fn key_hint(&self) -> Seq<char> {
        match *self {
            ReplyTarget::Discord(c) => c.key_hint(),
            ReplyTarget::Interaction(c) => c.key_hint(),
            ReplyTarget::Feishu(c) => c.key_hint(),
            ReplyTarget::Telegram(c) => c.key_hint(),
        }
    }

    open spec fn target(&self) -> ReplyTarget {
        *self
    }

    fn as_any(&self) -> (r: AnyCtx<'_>) {
        match self {
            ReplyTarget::Discord(c) => AnyCtx::Discord(c),
            ReplyTarget::Interaction(c) => AnyCtx::Interaction(c),
            ReplyTarget::Feishu(c) => AnyCtx::Feishu(c),
            ReplyTarget::Telegram(c) => AnyCtx::Telegram(c),
        }
    }

    fn session_key_hint(&self) -> (r: String) {
        match self {
            ReplyTarget::Discord(c) => c.session_key_hint(),
            ReplyTarget::Interaction(c) => c.session_key_hint(),
            ReplyTarget::Feishu(c) => c.session_key_hint(),
            ReplyTarget::Telegram(c) => c.session_key_hint(),
        }
    }

    fn clone_box(&self) -> (r: Box<ReplyTarget>) {
        match self {
            ReplyTarget::Discord(c) => c.clone_box(),
            ReplyTarget::Interaction(c) => c.clone_box(),
            ReplyTarget::Feishu(c) => c.clone_box(),
            ReplyTarget::Telegram(c) => c.clone_box(),
        }
    }
}

/// The handle of a message that can be edited, by its platform's own type.
pub enum AnyHandle<'a> {
    Discord(&'a DiscordPreviewHandle),
    Feishu(&'a FeishuPreviewHandle),
    Telegram(&'a TelegramPreviewHandle),
}

/// The handle of a message that can be edited in place or deleted.
pub trait PreviewHandle {
    /// This handle among those of all platforms.
    spec fn handle(&self) -> AnyHandle<'_>;

    fn as_any(&self) -> (r: AnyHandle<'_>)
        ensures
            r == self.handle(),
    ;
}

/// An inline button.
#[derive(Debug)]
pub struct Button {
    pub text: String,
    pub callback_data: String,
}

impl View for Button {
    type V = (Seq<char>, Seq<char>);

    open spec fn view(&self) -> (Seq<char>, Seq<char>) {
        (self.text@, self.callback_data@)
    }
}

/// The contents of each button in a row.
pub open spec fn buttons_view(v: Seq<Button>) -> Seq<(Seq<char>, Seq<char>)> {
    v.map_values(|b: Button| b@)
}

/// A button with the given caption and callback data.
pub fn button(text: &str, callback_data: String) -> (r: Button)
    ensures
        r@ == (text@, callback_data@),
{
    Button { text: text.to_owned(), callback_data }
}

/// A command for a platform's native menu.
#[derive(Debug)]
pub struct BotCommand {
    pub name: String,
    pub description: String,
}

impl View for BotCommand {
    type V = (Seq<char>, Seq<char>);

    open spec fn view(&self) -> (Seq<char>, Seq<char>) {
        (self.name@, self.description@)
    }
}

/// The contents of each command in a menu.
pub open spec fn commands_view(v: Seq<BotCommand>) -> Seq<(Seq<char>, Seq<char>)> {
    v.map_values(|c: BotCommand| c@)
}

/// What every platform says of itself.
pub trait Platform {
    /// The short identifier of the platform.
    spec fn platform_name(&self) -> Seq<char>;

    /// Whether message bodies are Markdown.
    spec fn markdown(&self) -> bool;

    /// Short identifier, e.g. "telegram", "discord".
    fn name(&self) -> (r: &str)
        ensures
            r@ == self.platform_name(),
    ;

    /// Whether this platform renders Markdown, tables included, in message
    /// bodies. The engine rewrites tables for those that do not.
    fn renders_markdown(&self) -> (r: bool)
        ensures
            r == self.markdown(),
    ;
}

/// Which optional capabilities a platform has.
#[derive(PartialEq, Eq, Structural, Clone, Copy, Debug)]
pub struct Capabilities {
    pub message_updater: bool,
    pub image_sender: bool,
    pub file_sender: bool,
    pub inline_button_sender: bool,
    pub typing_indicator: bool,
}

/// Capability detection.
pub trait PlatformCapabilities: Platform {
    /// What this platform can do beyond plain replies.
    spec fn can(&self) -> Capabilities;

    /// Whether messages can be edited and deleted in place.
    fn as_message_updater(&self) -> (r: bool)
        ensures
            r == self.can().message_updater,
    ;

    fn as_image_sender(&self) -> (r: bool)
        ensures
            r == self.can().image_sender,
    ;

    fn as_file_sender(&self) -> (r: bool)
        ensures
            r == self.can().file_sender,
    ;

    /// Whether messages can carry inline buttons.
    fn as_inline_button_sender(&self) -> (r: bool)
        ensures
            r == self.can().inline_button_sender,
    ;

    fn as_typing_indicator(&self) -> (r: bool)
        ensures
            r == self.can().typing_indicator,
    ;
}

} // verus!

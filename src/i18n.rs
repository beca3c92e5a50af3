//! The user-facing strings, in each supported language.
use vstd::prelude::*;
use crate::text::push_nat;

verus! {

/// A supported language.
#[derive(Debug, Clone, Copy, PartialEq, Eq, Structural)]
pub enum Language {
    Japanese,
    English,
}

/// The text for `lang` among its Japanese and English versions.
pub open spec fn localized(lang: Language, ja: Seq<char>, en: Seq<char>) -> Seq<char> {
    match lang {
        Language::Japanese => ja,
        Language::English => en,
    }
}

impl Language {
    /// The language's code.
    pub fn code(&self) -> (r: &'static str)
        ensures
            r@ == localized(*self, "ja"@, "en"@),
    {
        match self {
            Language::Japanese => "ja",
            Language::English => "en",
        }
    }

    /// The language's name, in itself.
    pub fn name(&self) -> (r: &'static str)
        ensures
            r@ == localized(*self, "日本語"@, "English"@),
    {
        match self {
            Language::Japanese => "日本語",
            Language::English => "English",
        }
    }

    /// Every supported language, Japanese first.
    pub fn all() -> (r: Vec<Language>)
        ensures
            r@ == seq![Language::Japanese, Language::English],
    {
        let r = vec![Language::Japanese, Language::English];
        assert(r@ =~= seq![Language::Japanese, Language::English]);
        r
    }
}

/// The string table for the current language.
pub struct I18n {
    language: Language,
}

impl View for I18n {
    type V = Language;

    closed spec fn view(&self) -> Language {
        self.language
    }
}

impl I18n {
    pub fn new(language: Language) -> (r: Self)
        ensures
            r@ == language,
    {
        I18n { language }
    }

    pub fn language(&self) -> (r: &Language)
        ensures
            *r == self@,
    {
        &self.language
    }

    pub fn set_language(&mut self, language: Language)
        ensures
            final(self)@ == language,
    {
        self.language = language;
    }

    pub fn app_name(&self) -> (r: &'static str)
        ensures
            r@ == "Rustr"@,
    {
        "Rustr"
    }

    pub fn button_public(&self) -> (r: &'static str)
        ensures
            r@ == localized(self@, "📢 Public"@, "📢 Public"@),
    {
        match self.language {
            Language::Japanese => "📢 Public",
            Language::English => "📢 Public",
        }
    }

    pub fn button_dms(&self) -> (r: &'static str)
        ensures
            r@ == localized(self@, "💬 DMs"@, "💬 DMs"@),
    {
        match self.language {
            Language::Japanese => "💬 DMs",
            Language::English => "💬 DMs",
        }
    }

    pub fn button_settings(&self) -> (r: &'static str)
        ensures
            r@ == localized(self@, "⚙"@, "⚙"@),
    {
        match self.language {
            Language::Japanese => "⚙",
            Language::English => "⚙",
        }
    }

    pub fn onboarding_welcome_title(&self) -> (r: &'static str)
        ensures
            r@ == localized(self@, "🦀 Rustrへようこそ"@, "🦀 Welcome to Rustr"@),
    {
        match self.language {
            Language::Japanese => "🦀 Rustrへようこそ",
            Language::English => "🦀 Welcome to Rustr",
        }
    }

    pub fn onboarding_welcome_description(&self) -> (r: &'static str)
        ensures
            r@ == localized(self@, "RustとeGuiで構築された分散型Nostrクライアント"@, "A decentralized Nostr client built with Rust and egui"@),
    {
        match self.language {
            Language::Japanese => "RustとeGuiで構築された分散型Nostrクライアント",
            Language::English => "A decentralized Nostr client built with Rust and egui",
        }
    }

    pub fn onboarding_get_started(&self) -> (r: &'static str)
        ensures
            r@ == localized(self@, "はじめる →"@, "Get Started →"@),
    {
        match self.language {
            Language::Japanese => "はじめる →",
            Language::English => "Get Started →",
        }
    }

    pub fn onboarding_choose_signer_title(&self) -> (r: &'static str)
        ensures
            r@ == localized(self@, "署名方法を選択"@, "Choose Your Signer"@),
    {
        match self.language {
            Language::Japanese => "署名方法を選択",
            Language::English => "Choose Your Signer",
        }
    }

    pub fn onboarding_use_extension(&self) -> (r: &'static str)
        ensures
            r@ == localized(self@, "🔌 ブラウザ拡張機能を使用 (NIP-07)"@, "🔌 Use Browser Extension (NIP-07)"@),
    {
        match self.language {
            Language::Japanese => "🔌 ブラウザ拡張機能を使用 (NIP-07)",
            Language::English => "🔌 Use Browser Extension (NIP-07)",
        }
    }

    pub fn onboarding_import_key(&self) -> (r: &'static str)
        ensures
            r@ == localized(self@, "📥 既存の鍵をインポート"@, "📥 Import Existing Key"@),
    {
        match self.language {
            Language::Japanese => "📥 既存の鍵をインポート",
            Language::English => "📥 Import Existing Key",
        }
    }

    pub fn onboarding_create_key(&self) -> (r: &'static str)
        ensures
            r@ == localized(self@, "✨ 新しい鍵を作成"@, "✨ Create New Key"@),
    {
        match self.language {
            Language::Japanese => "✨ 新しい鍵を作成",
            Language::English => "✨ Create New Key",
        }
    }

    pub fn onboarding_import_key_title(&self) -> (r: &'static str)
        ensures
            r@ == localized(self@, "鍵をインポート"@, "Import Your Key"@),
    {
        match self.language {
            Language::Japanese => "鍵をインポート",
            Language::English => "Import Your Key",
        }
    }

    pub fn onboarding_enter_nsec(&self) -> (r: &'static str)
        ensures
            r@ == localized(self@, "nsec（秘密鍵）を入力:"@, "Enter your nsec (private key):"@),
    {
        match self.language {
            Language::Japanese => "nsec（秘密鍵）を入力:",
            Language::English => "Enter your nsec (private key):",
        }
    }

    pub fn onboarding_passphrase(&self) -> (r: &'static str)
        ensures
            r@ == localized(self@, "パスフレーズ（暗号化用）:"@, "Passphrase (for encryption):"@),
    {
        match self.language {
            Language::Japanese => "パスフレーズ（暗号化用）:",
            Language::English => "Passphrase (for encryption):",
        }
    }

    pub fn onboarding_back(&self) -> (r: &'static str)
        ensures
            r@ == localized(self@, "← 戻る"@, "← Back"@),
    {
        match self.language {
            Language::Japanese => "← 戻る",
            Language::English => "← Back",
        }
    }

    pub fn onboarding_import(&self) -> (r: &'static str)
        ensures
            r@ == localized(self@, "インポート →"@, "Import →"@),
    {
        match self.language {
            Language::Japanese => "インポート →",
            Language::English => "Import →",
        }
    }

    pub fn onboarding_create_key_title(&self) -> (r: &'static str)
        ensures
            r@ == localized(self@, "新しい鍵を作成"@, "Create New Key"@),
    {
        match self.language {
            Language::Japanese => "新しい鍵を作成",
            Language::English => "Create New Key",
        }
    }

    pub fn onboarding_set_passphrase(&self) -> (r: &'static str)
        ensures
            r@ == localized(self@, "鍵を暗号化するパスフレーズを設定:"@, "Set a passphrase to encrypt your key:"@),
    {
        match self.language {
            Language::Japanese => "鍵を暗号化するパスフレーズを設定:",
            Language::English => "Set a passphrase to encrypt your key:",
        }
    }

    pub fn onboarding_important_warning(&self) -> (r: &'static str)
        ensures
            r@ == localized(self@, "⚠ 重要: パスフレーズを安全に保管してください！"@, "⚠ Important: Save your passphrase securely!"@),
    {
        match self.language {
            Language::Japanese => "⚠ 重要: パスフレーズを安全に保管してください！",
            Language::English => "⚠ Important: Save your passphrase securely!",
        }
    }

    pub fn onboarding_need_passphrase(&self) -> (r: &'static str)
        ensures
            r@ == localized(self@, "アカウントにアクセスするために必要です。"@, "You'll need it to access your account."@),
    {
        match self.language {
            Language::Japanese => "アカウントにアクセスするために必要です。",
            Language::English => "You'll need it to access your account.",
        }
    }

    pub fn onboarding_create(&self) -> (r: &'static str)
        ensures
            r@ == localized(self@, "鍵を作成 →"@, "Create Key →"@),
    {
        match self.language {
            Language::Japanese => "鍵を作成 →",
            Language::English => "Create Key →",
        }
    }

    pub fn onboarding_error_fill_fields(&self) -> (r: &'static str)
        ensures
            r@ == localized(self@, "すべてのフィールドを入力してください"@, "Please fill in all fields"@),
    {
        match self.language {
            Language::Japanese => "すべてのフィールドを入力してください",
            Language::English => "Please fill in all fields",
        }
    }

    pub fn onboarding_error_enter_passphrase(&self) -> (r: &'static str)
        ensures
            r@ == localized(self@, "パスフレーズを入力してください"@, "Please enter a passphrase"@),
    {
        match self.language {
            Language::Japanese => "パスフレーズを入力してください",
            Language::English => "Please enter a passphrase",
        }
    }

    pub fn channel_create_title(&self) -> (r: &'static str)
        ensures
            r@ == localized(self@, "📢 新しいチャンネルを作成"@, "📢 Create New Channel"@),
    {
        match self.language {
            Language::Japanese => "📢 新しいチャンネルを作成",
            Language::English => "📢 Create New Channel",
        }
    }

    pub fn channel_name_label(&self) -> (r: &'static str)
        ensures
            r@ == localized(self@, "チャンネル名:"@, "Channel name:"@),
    {
        match self.language {
            Language::Japanese => "チャンネル名:",
            Language::English => "Channel name:",
        }
    }

    pub fn channel_about_label(&self) -> (r: &'static str)
        ensures
            r@ == localized(self@, "説明:"@, "Description:"@),
    {
        match self.language {
            Language::Japanese => "説明:",
            Language::English => "Description:",
        }
    }

    pub fn button_cancel(&self) -> (r: &'static str)
        ensures
            r@ == localized(self@, "✖ キャンセル"@, "✖ Cancel"@),
    {
        match self.language {
            Language::Japanese => "✖ キャンセル",
            Language::English => "✖ Cancel",
        }
    }

    pub fn button_create(&self) -> (r: &'static str)
        ensures
            r@ == localized(self@, "✅ 作成"@, "✅ Create"@),
    {
        match self.language {
            Language::Japanese => "✅ 作成",
            Language::English => "✅ Create",
        }
    }

    pub fn composer_title(&self) -> (r: &'static str)
        ensures
            r@ == localized(self@, "✏ メッセージを作成"@, "✏ Compose Message"@),
    {
        match self.language {
            Language::Japanese => "✏ メッセージを作成",
            Language::English => "✏ Compose Message",
        }
    }

    pub fn composer_placeholder(&self) -> (r: &'static str)
        ensures
            r@ == localized(self@, "メッセージを入力..."@, "Type your message here..."@),
    {
        match self.language {
            Language::Japanese => "メッセージを入力...",
            Language::English => "Type your message here...",
        }
    }

    pub fn composer_send(&self) -> (r: &'static str)
        ensures
            r@ == localized(self@, "📤 送信"@, "📤 Send"@),
    {
        match self.language {
            Language::Japanese => "📤 送信",
            Language::English => "📤 Send",
        }
    }

    pub fn composer_char_count(&self, count: usize) -> (r: String)
        ensures
            r@ == crate::text::nat_text(count as nat) + localized(self@, " 文字"@, " chars"@),
    {
        let mut s = String::new();
        push_nat(&mut s, count as u64);
        match self.language {
            Language::Japanese => s.append(" 文字"),
            Language::English => s.append(" chars"),
        }
        s
    }

    pub fn button_close(&self) -> (r: &'static str)
        ensures
            r@ == localized(self@, "✖ 閉じる"@, "✖ Close"@),
    {
        match self.language {
            Language::Japanese => "✖ 閉じる",
            Language::English => "✖ Close",
        }
    }

    pub fn button_new_post(&self) -> (r: &'static str)
        ensures
            r@ == localized(self@, "✏ 新規投稿"@, "✏ New Post"@),
    {
        match self.language {
            Language::Japanese => "✏ 新規投稿",
            Language::English => "✏ New Post",
        }
    }

    pub fn timeline_empty(&self) -> (r: &'static str)
        ensures
            r@ == localized(self@, "まだイベントがありません。会話を始めましょう！"@, "No events yet. Start a conversation!"@),
    {
        match self.language {
            Language::Japanese => "まだイベントがありません。会話を始めましょう！",
            Language::English => "No events yet. Start a conversation!",
        }
    }

    pub fn timeline_reply(&self) -> (r: &'static str)
        ensures
            r@ == localized(self@, "💬 返信"@, "💬 Reply"@),
    {
        match self.language {
            Language::Japanese => "💬 返信",
            Language::English => "💬 Reply",
        }
    }

    pub fn timeline_like(&self) -> (r: &'static str)
        ensures
            r@ == localized(self@, "❤ いいね"@, "❤ Like"@),
    {
        match self.language {
            Language::Japanese => "❤ いいね",
            Language::English => "❤ Like",
        }
    }

    pub fn settings_title(&self) -> (r: &'static str)
        ensures
            r@ == localized(self@, "⚙️ 設定"@, "⚙️ Settings"@),
    {
        match self.language {
            Language::Japanese => "⚙️ 設定",
            Language::English => "⚙️ Settings",
        }
    }

    pub fn settings_language(&self) -> (r: &'static str)
        ensures
            r@ == localized(self@, "🌐 言語"@, "🌐 Language"@),
    {
        match self.language {
            Language::Japanese => "🌐 言語",
            Language::English => "🌐 Language",
        }
    }

    pub fn settings_font(&self) -> (r: &'static str)
        ensures
            r@ == localized(self@, "🔤 フォント設定"@, "🔤 Font Settings"@),
    {
        match self.language {
            Language::Japanese => "🔤 フォント設定",
            Language::English => "🔤 Font Settings",
        }
    }

    pub fn settings_font_family(&self) -> (r: &'static str)
        ensures
            r@ == localized(self@, "フォントファミリー"@, "Font Family"@),
    {
        match self.language {
            Language::Japanese => "フォントファミリー",
            Language::English => "Font Family",
        }
    }

    pub fn settings_restart_required(&self) -> (r: &'static str)
        ensures
            r@ == localized(self@, "⚠️ フォント変更を適用するには再起動が必要です"@, "⚠️ Restart required to apply font changes"@),
    {
        match self.language {
            Language::Japanese => "⚠️ フォント変更を適用するには再起動が必要です",
            Language::English => "⚠️ Restart required to apply font changes",
        }
    }

    pub fn settings_save_and_restart(&self) -> (r: &'static str)
        ensures
            r@ == localized(self@, "💾 保存して再起動"@, "💾 Save and Restart"@),
    {
        match self.language {
            Language::Japanese => "💾 保存して再起動",
            Language::English => "💾 Save and Restart",
        }
    }

    pub fn settings_font_info(&self) -> (r: &'static str)
        ensures
            r@ == localized(self@, "ℹ️ フォント情報"@, "ℹ️ Font Information"@),
    {
        match self.language {
            Language::Japanese => "ℹ️ フォント情報",
            Language::English => "ℹ️ Font Information",
        }
    }

    pub fn settings_font_preview(&self) -> (r: &'static str)
        ensures
            r@ == localized(self@, "📝 プレビュー"@, "📝 Preview"@),
    {
        match self.language {
            Language::Japanese => "📝 プレビュー",
            Language::English => "📝 Preview",
        }
    }

    pub fn settings_preview_japanese(&self) -> (r: &'static str)
        ensures
            r@ == localized(self@, "日本語: こんにちは、世界！"@, "Japanese: こんにちは、世界！"@),
    {
        match self.language {
            Language::Japanese => "日本語: こんにちは、世界！",
            Language::English => "Japanese: こんにちは、世界！",
        }
    }

    pub fn settings_preview_english(&self) -> (r: &'static str)
        ensures
            r@ == "English: Hello, World!"@,
    {
        "English: Hello, World!"
    }

    pub fn settings_preview_emoji(&self) -> (r: &'static str)
        ensures
            r@ == localized(self@, "絵文字: 🎉 🚀 ✨ 💡 🔥"@, "Emoji: 🎉 🚀 ✨ 💡 🔥"@),
    {
        match self.language {
            Language::Japanese => "絵文字: 🎉 🚀 ✨ 💡 🔥",
            Language::English => "Emoji: 🎉 🚀 ✨ 💡 🔥",
        }
    }

    pub fn settings_preview_numbers(&self) -> (r: &'static str)
        ensures
            r@ == localized(self@, "数字: 0123456789"@, "Numbers: 0123456789"@),
    {
        match self.language {
            Language::Japanese => "数字: 0123456789",
            Language::English => "Numbers: 0123456789",
        }
    }
}

impl Default for I18n {
    fn default() -> (r: Self)
        ensures
            r@ == Language::Japanese,
    {
        I18n::new(Language::Japanese)
    }
}

} // verus!

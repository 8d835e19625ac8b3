//! Server-side preference defaults handed to the frontend.

use vstd::prelude::*;

verus! {

/// An always-empty JSON object.
pub struct UnitMap {}

/// Security toggles.
pub struct Security {
    pub recaptcha_enabled: bool,
    pub allow_user_change_username: bool,
    pub allow_non_privileged_user_edit_public_problem: bool,
    pub allow_owner_manage_problem_permission: bool,
    pub allow_owner_delete_problem: bool,
    pub discussion_default_public: bool,
    pub discussion_reply_default_public: bool,
    pub allow_everyone_create_discussion: bool,
}

impl Default for Security {
    fn default() -> (r: Security)
        ensures
            !r.recaptcha_enabled,
            r.allow_user_change_username,
            r.allow_non_privileged_user_edit_public_problem,
            r.allow_owner_manage_problem_permission,
            r.allow_owner_delete_problem,
            r.discussion_default_public,
            r.discussion_reply_default_public,
            r.allow_everyone_create_discussion,
    {
        Security {
            recaptcha_enabled: false,
            allow_user_change_username: true,
            allow_non_privileged_user_edit_public_problem: true,
            allow_owner_manage_problem_permission: true,
            allow_owner_delete_problem: true,
            discussion_default_public: true,
            discussion_reply_default_public: true,
            allow_everyone_create_discussion: true,
        }
    }
}

/// Page sizes of every paginated listing.
pub struct Pagination {
    pub homepage_user_list: u32,
    pub homepage_problem_list: u32,
    pub problem_set: u32,
    pub search_problems_preview: u32,
    pub submissions: u32,
    pub submission_statistics: u32,
    pub user_list: u32,
    pub user_audit_logs: u32,
    pub discussions: u32,
    pub search_discussions_preview: u32,
    pub discussion_replies: u32,
    pub discussion_replies_head: u32,
    pub discussion_replies_more: u32,
}

impl Default for Pagination {
    fn default() -> (r: Pagination)
        ensures
            r.homepage_user_list == 10,
            r.homepage_problem_list == 10,
            r.problem_set == 50,
            r.search_problems_preview == 7,
            r.submissions == 10,
            r.submission_statistics == 10,
            r.user_list == 30,
            r.user_audit_logs == 10,
            r.discussions == 10,
            r.search_discussions_preview == 7,
            r.discussion_replies == 40,
            r.discussion_replies_head == 20,
            r.discussion_replies_more == 20,
    {
        Pagination {
            homepage_user_list: 10,
            homepage_problem_list: 10,
            problem_set: 50,
            search_problems_preview: 7,
            submissions: 10,
            submission_statistics: 10,
            user_list: 30,
            user_audit_logs: 10,
            discussions: 10,
            search_discussions_preview: 7,
            discussion_replies: 40,
            discussion_replies_head: 20,
            discussion_replies_more: 20,
        }
    }
}

/// Everything else.
pub struct Misc {
    pub app_logo_for_theme: UnitMap,
    pub redirect_legacy_urls: bool,
    pub render_markdown_in_user_bio: bool,
    pub discussion_reaction_emojis: [&'static str; 10],
    pub discussion_reaction_allow_custom_emojis: bool,
}

impl Default for Misc {
    fn default() -> (r: Misc)
        ensures
            r.redirect_legacy_urls,
            r.render_markdown_in_user_bio,
            r.discussion_reaction_allow_custom_emojis,
    {
        Misc {
            app_logo_for_theme: UnitMap {},
            redirect_legacy_urls: true,
            render_markdown_in_user_bio: true,
            discussion_reaction_emojis: [
                "\u{1f44d}",
                "\u{1f44e}",
                "\u{1f604}",
                "\u{1f615}",
                "\u{2764}\u{fe0f}",
                "\u{1f914}",
                "\u{1f923}",
                "\u{1f33f}",
                "\u{1f34b}",
                "\u{1f54a}\u{fe0f}",
            ],
            discussion_reaction_allow_custom_emojis: true,
        }
    }
}

/// The whole preference block.
pub struct PreferenceConfig {
    pub site_name: &'static str,
    pub security: Security,
    pub pagination: Pagination,
    pub misc: Misc,
}

impl Default for PreferenceConfig {
    fn default() -> (r: PreferenceConfig)
        ensures
            r.site_name@ == "Lean4OJ"@,
            r.pagination.problem_set == 50,
    {
        PreferenceConfig {
            site_name: "Lean4OJ",
            security: Security::default(),
            pagination: Pagination::default(),
            misc: Misc::default(),
        }
    }
}

} // verus!

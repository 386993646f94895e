//! Text reviews through a completion provider, and the prompts they use.
//!
//! The provider is a trait the caller implements; the deterministic parts —
//! prompt construction and report formatting — live here.

use vstd::prelude::*;

use crate::errors::SoukError;

verus! {

/// A completion provider. Implementations send a prompt to some service and
/// return its text; what comes back is outside this crate's control, so no
/// contract constrains it.
pub trait LlmProvider {
    fn complete(&self, prompt: &str) -> Result<String, SoukError>;

    fn name(&self) -> &str;

    fn model(&self) -> &str;
}

/// A provider that returns a fixed response.
pub struct MockProvider {
    response: String,
}

impl MockProvider {
    /// The fixed response.
    pub closed spec fn response_spec(self) -> Seq<char> {
        self.response@
    }

    pub fn new(response: &str) -> (r: MockProvider)
        ensures
            r.response_spec() == response@,
    {
        MockProvider { response: response.to_owned() }
    }
}

impl LlmProvider for MockProvider {
    fn complete(&self, prompt: &str) -> Result<String, SoukError> {
        Ok(self.response.clone())
    }

    fn name(&self) -> &str {
        "mock"
    }

    fn model(&self) -> &str {
        "mock-model"
    }
}

/// Builds the review prompt for one plugin from its manifest text, optional
/// dependency declaration, optional readme, and skill summaries.
#[verifier::loop_isolation(false)]
pub fn build_plugin_review_prompt(
    plugin_json: &str,
    extends_json: Option<&str>,
    readme: Option<&str>,
    skills: &Vec<String>,
) -> (r: String)
{
    let mut p = "Review this plugin for quality, security, and best practices, with the eye of an experienced plugin maintainer.\n\n".to_owned();
    p.append("## plugin.json\n```json\n");
    p.append(plugin_json);
    p.append("\n```\n\n");
    match extends_json {
        Some(extends) => {
            p.append("## extends-plugin.json\n```json\n");
            p.append(extends);
            p.append("\n```\n\n");
        },
        None => {},
    }
    match readme {
        Some(text) => {
            p.append("## README.md\n");
            p.append(text);
            p.append("\n\n");
        },
        None => {},
    }
    if skills.len() > 0 {
        p.append("## Skills\n");
        let n = skills.len();
        let mut i: usize = 0;
        while i < n
            invariant
                i <= n,
                n == skills@.len(),
            decreases n - i,
        {
            p.append(skills[i].as_str());
            p.append("\n");
            i += 1;
        }
        p.append("\n");
    }
    p.append(
        "Please provide:\n1. Executive Summary\n2. Component Analysis (agents, skills, commands, hooks, MCP servers)\n3. Code Quality Assessment\n4. Documentation Review\n5. Security Considerations\n6. Recommendations (critical issues, suggested improvements, optional enhancements)\n7. Overall Rating (1-10)\n",
    );
    p
}

/// Builds the review prompt for a whole registry from its manifest text and
/// per-plugin summaries.
#[verifier::loop_isolation(false)]
pub fn build_marketplace_review_prompt(marketplace_json: &str, plugin_summaries: &Vec<String>) -> (r:
    String)
{
    let mut p = "Review this plugin marketplace for quality, consistency, and best practices, with the eye of an experienced maintainer.\n\n".to_owned();
    p.append("## marketplace.json\n```json\n");
    p.append(marketplace_json);
    p.append("\n```\n\n");
    if plugin_summaries.len() > 0 {
        p.append("## Plugins\n\n");
        let n = plugin_summaries.len();
        let mut i: usize = 0;
        while i < n
            invariant
                i <= n,
                n == plugin_summaries@.len(),
            decreases n - i,
        {
            p.append(plugin_summaries[i].as_str());
            p.append("\n\n");
            i += 1;
        }
    }
    p.append(
        "Please provide:\n1. Overall marketplace quality assessment\n2. Plugin consistency analysis\n3. Dependency concerns\n4. Naming and organization feedback\n5. Suggestions for improvement\n6. Overall rating (1-10)\n",
    );
    p
}

/// Builds the review prompt for a single skill.
pub fn build_skill_review_prompt(skill_name: &str, skill_content: &str) -> (r: String) {
    let mut p = "Review, with the eye of an experienced maintainer, this skill named '".to_owned();
    p.append(skill_name);
    p.append("' for quality, clarity, and effectiveness.\n\n## SKILL.md Content\n```markdown\n");
    p.append(skill_content);
    p.append("\n```\n\nPlease provide:\n1. Overall assessment of the skill's purpose and clarity\n2. Quality of instructions and examples\n3. Potential issues or ambiguities\n4. Suggestions for improvement\n5. Rating (1-10)\n");
    p
}

/// Relies on std::time::SystemTime::now: the seconds since the epoch depend
/// on the clock, so nothing is promised of the value.
#[verifier::external_body]
pub fn now_unix_secs() -> u64 {
    match std::time::SystemTime::now().duration_since(std::time::SystemTime::UNIX_EPOCH) {
        Ok(d) => d.as_secs(),
        Err(_) => 0,
    }
}

/// Days per year block used by the civil-calendar conversion.
pub open spec fn is_leap(y: int) -> bool {
    (y % 4 == 0 && y % 100 != 0) || y % 400 == 0
}

/// Converts days since the epoch to a civil calendar date.
#[verifier::loop_isolation(false)]
pub fn days_to_civil(days: i64) -> (r: (i64, u64, u64))
    requires
        0 <= days < 100_000_000,
    ensures
        1970 <= r.0,
        1 <= r.1 <= 12,
        1 <= r.2 <= 31,
{
    let mut year: i64 = 1970;
    let mut rem: i64 = days;
    loop
        invariant
            0 <= rem <= days < 100_000_000,
            1970 <= year,
            year - 1970 <= days - rem,
        decreases rem + 1,
    {
        let leap = (year % 4 == 0 && year % 100 != 0) || year % 400 == 0;
        let ylen: i64 = if leap {
            366
        } else {
            365
        };
        if rem < ylen {
            break;
        }
        rem = rem - ylen;
        year = year + 1;
    }
    let leap = (year % 4 == 0 && year % 100 != 0) || year % 400 == 0;
    let feb: i64 = if leap {
        29
    } else {
        28
    };
    let mut month: u64 = 1;
    let mut m: usize = 0;
    while m < 12
        invariant
            m <= 12,
            1 <= month <= 12,
            0 <= rem < 100_000_000,
            m < 12 ==> month == m + 1,
        decreases 12 - m,
    {
        let mlen: i64 = if m == 0 {
            31
        } else if m == 1 {
            feb
        } else if m == 2 {
            31
        } else if m == 3 {
            30
        } else if m == 4 {
            31
        } else if m == 5 {
            30
        } else if m == 6 {
            31
        } else if m == 7 {
            31
        } else if m == 8 {
            30
        } else if m == 9 {
            31
        } else if m == 10 {
            30
        } else {
            31
        };
        if rem < mlen {
            proof {
                assert(rem <= 30);
            }
            return (year, month, (rem + 1) as u64);
        }
        if m < 11 {
            rem = rem - mlen;
            month = month + 1;
        }
        m += 1;
    }
    (year, 12, 31)
}

/// Renders a number left-padded with zeros to at least `width` digits.
fn padded(n: u64, width: usize) -> (r: String)
    requires
        width <= 4,
{
    let digits = crate::strnum::u64_to_string(n);
    let len = digits.as_str().unicode_len();
    let mut out = "".to_owned();
    let mut i = len;
    while i < width
        invariant
            width <= 4,
        decreases width - i,
    {
        out.append("0");
        i += 1;
    }
    out.append(digits.as_str());
    out
}

/// The current date as `YYYY-MM-DD`, from the system clock.
pub fn current_date_string() -> (r: String) {
    let secs = now_unix_secs();
    let days = secs / 86400;
    let capped: u64 = if days < 100_000_000 {
        days
    } else {
        99_999_999
    };
    let (y, m, d) = days_to_civil(capped as i64);
    let mut out = padded(y as u64, 4);
    out.append("-");
    let ms = padded(m, 2);
    out.append(ms.as_str());
    out.append("-");
    let ds = padded(d, 2);
    out.append(ds.as_str());
    out
}

/// The result of reviewing one plugin.
#[derive(Debug)]
pub struct ReviewReport {
    pub plugin_name: String,
    pub provider_name: String,
    pub model_name: String,
    pub review_text: String,
}

/// Reviews a plugin: reads its manifest (required), its dependency
/// declaration and readme (optional) and its skill summaries, sends the
/// prompt to the provider, and optionally writes a report file.
#[verifier::loop_isolation(false)]
pub fn review_plugin<P: LlmProvider>(
    fs: &mut crate::fsm::Fs,
    plugin_path: &str,
    provider: &P,
    output_dir: Option<&str>,
) -> (r: Result<ReviewReport, SoukError>)
    requires
        old(fs).wf(),
    ensures
        final(fs).wf(),
{
    let pj = crate::paths::join(
        crate::paths::join(plugin_path, ".plugin-meta").as_str(),
        "plugin.json",
    );
    let plugin_json = match fs.read_file(pj.as_str()) {
        Some(c) => c,
        None => {
            return Err(SoukError::Io(pj));
        },
    };
    let ep = crate::paths::join(
        crate::paths::join(plugin_path, ".plugin-meta").as_str(),
        "extends-plugin.json",
    );
    let extends = fs.read_file(ep.as_str());
    let readme = fs.read_file(crate::paths::join(plugin_path, "README.md").as_str());
    let skills = crate::skills::enumerate_skills(fs, plugin_path);
    let mut summaries: Vec<String> = Vec::new();
    let n = skills.len();
    let mut i: usize = 0;
    while i < n
        invariant
            i <= n,
            n == skills@.len(),
        decreases n - i,
    {
        let mut line = "- ".to_owned();
        line.append(skills[i].display_name.as_str());
        line.append(" (dir: ");
        line.append(skills[i].dir_name.as_str());
        line.append(")");
        summaries.push(line);
        i += 1;
    }
    let prompt = build_plugin_review_prompt(
        plugin_json.as_str(),
        match &extends {
            Some(c) => Some(c.as_str()),
            None => None,
        },
        match &readme {
            Some(c) => Some(c.as_str()),
            None => None,
        },
        &summaries,
    );
    let review_text = match provider.complete(prompt.as_str()) {
        Ok(t) => t,
        Err(e) => {
            return Err(e);
        },
    };
    let plugin_name = crate::paths::basename(plugin_path);
    let report = ReviewReport {
        plugin_name: plugin_name.clone(),
        provider_name: provider.name().to_owned(),
        model_name: provider.model().to_owned(),
        review_text: review_text.clone(),
    };
    match output_dir {
        Some(dir) => {
            fs.mkdir(dir);
            let mut file = plugin_name.clone();
            file.append("-review-report.md");
            let path = crate::paths::join(dir, file.as_str());
            let mut content = "# Plugin Review: ".to_owned();
            content.append(plugin_name.as_str());
            content.append("\n\n**Provider:** ");
            content.append(report.provider_name.as_str());
            content.append(" (");
            content.append(report.model_name.as_str());
            content.append(")\n**Date:** ");
            let date = current_date_string();
            content.append(date.as_str());
            content.append("\n\n---\n\n");
            content.append(review_text.as_str());
            content.append("\n");
            fs.write_file(path.as_str(), content);
        },
        None => {},
    }
    Ok(report)
}

/// Reviews the whole registry: the manifest text plus each entry's manifest
/// as a summary, through the provider.
#[verifier::loop_isolation(false)]
pub fn review_marketplace<P: LlmProvider>(
    fs: &mut crate::fsm::Fs,
    config: &crate::config::MarketplaceConfig,
    provider: &P,
    output_dir: Option<&str>,
) -> (r: Result<ReviewReport, SoukError>)
    requires
        old(fs).wf(),
    ensures
        final(fs).wf(),
{
    let marketplace_json = match fs.read_file(config.marketplace_path.as_str()) {
        Some(c) => c,
        None => {
            return Err(SoukError::Io(config.marketplace_path.clone()));
        },
    };
    let mut summaries: Vec<String> = Vec::new();
    let n = config.marketplace.plugins.len();
    let mut i: usize = 0;
    while i < n
        invariant
            i <= n,
            n == config.marketplace.plugins@.len(),
            fs.wf(),
        decreases n - i,
    {
        let entry = &config.marketplace.plugins[i];
        let pp = crate::paths::join(config.plugin_root_abs.as_str(), entry.source.as_str());
        let pj = crate::paths::join(
            crate::paths::join(pp.as_str(), ".plugin-meta").as_str(),
            "plugin.json",
        );
        let mut line = "### ".to_owned();
        line.append(entry.name.as_str());
        line.append(" (source: ");
        line.append(entry.source.as_str());
        match fs.read_file(pj.as_str()) {
            Some(content) => {
                line.append(")\n```json\n");
                line.append(content.as_str());
                line.append("\n```");
            },
            None => {
                line.append(") -- plugin.json not readable");
            },
        }
        summaries.push(line);
        i += 1;
    }
    let prompt = build_marketplace_review_prompt(marketplace_json.as_str(), &summaries);
    let review_text = match provider.complete(prompt.as_str()) {
        Ok(t) => t,
        Err(e) => {
            return Err(e);
        },
    };
    let report = ReviewReport {
        plugin_name: "marketplace".to_owned(),
        provider_name: provider.name().to_owned(),
        model_name: provider.model().to_owned(),
        review_text: review_text.clone(),
    };
    match output_dir {
        Some(dir) => {
            fs.mkdir(dir);
            let path = crate::paths::join(dir, "marketplace-review-report.md");
            let mut content = "# Marketplace Review\n\n**Provider:** ".to_owned();
            content.append(report.provider_name.as_str());
            content.append(" (");
            content.append(report.model_name.as_str());
            content.append(")\n\n---\n\n");
            content.append(review_text.as_str());
            content.append("\n");
            fs.write_file(path.as_str(), content);
        },
        None => {},
    }
    Ok(report)
}

/// The result of reviewing one skill.
#[derive(Debug)]
pub struct SkillReviewReport {
    pub skill_name: String,
    pub skill_dir: String,
    pub provider_name: String,
    pub model_name: String,
    pub review_text: String,
}

/// Reviews the selected skills of a plugin: all of them, or those named by
/// directory or display name. With neither, the available skills are listed
/// in the error for the caller to present.
#[verifier::loop_isolation(false)]
pub fn review_skills<P: LlmProvider>(
    fs: &mut crate::fsm::Fs,
    plugin_path: &str,
    skill_names: &Vec<String>,
    all: bool,
    provider: &P,
    output_dir: Option<&str>,
) -> (r: Result<Vec<SkillReviewReport>, SoukError>)
    requires
        old(fs).wf(),
    ensures
        final(fs).wf(),
{
    let available = crate::skills::enumerate_skills(fs, plugin_path);
    if available.len() == 0 {
        return Err(SoukError::Other("No skills found in plugin".to_owned()));
    }
    let mut chosen: Vec<usize> = Vec::new();
    if all {
        let n = available.len();
        let mut i: usize = 0;
        while i < n
            invariant
                i <= n,
                forall|j: int| 0 <= j < chosen@.len() ==> #[trigger] chosen@[j] < i,
            decreases n - i,
        {
            chosen.push(i);
            i += 1;
        }
    } else if skill_names.len() == 0 {
        let mut listing = "No skills specified. Available skills:".to_owned();
        let n = available.len();
        let mut i: usize = 0;
        while i < n
            invariant
                i <= n,
                n == available@.len(),
            decreases n - i,
        {
            listing.append("\n  - ");
            listing.append(available[i].display_name.as_str());
            listing.append(" (");
            listing.append(available[i].dir_name.as_str());
            listing.append(")");
            i += 1;
        }
        return Err(SoukError::Other(listing));
    } else {
        let wanted = skill_names.len();
        let mut w: usize = 0;
        while w < wanted
            invariant
                w <= wanted,
                wanted == skill_names@.len(),
                forall|j: int| 0 <= j < chosen@.len() ==> #[trigger] chosen@[j]
                    < available@.len(),
            decreases wanted - w,
        {
            let name = &skill_names[w];
            let n = available.len();
            let mut found = false;
            let mut i: usize = 0;
            while i < n
                invariant
                    i <= n,
                    n == available@.len(),
                    forall|j: int| 0 <= j < chosen@.len() ==> #[trigger] chosen@[j] < n,
                decreases n - i,
            {
                if crate::paths::str_eq(available[i].dir_name.as_str(), name.as_str())
                    || crate::paths::str_eq(available[i].display_name.as_str(), name.as_str()) {
                    chosen.push(i);
                    found = true;
                }
                i += 1;
            }
            if !found {
                return Err(
                    SoukError::SkillNotFound {
                        plugin: crate::paths::basename(plugin_path),
                        skill: name.clone(),
                    },
                );
            }
            w += 1;
        }
    }
    let mut reports: Vec<SkillReviewReport> = Vec::new();
    let cn = chosen.len();
    let mut c: usize = 0;
    while c < cn
        invariant
            c <= cn,
            cn == chosen@.len(),
            fs.wf(),
            forall|j: int| 0 <= j < chosen@.len() ==> #[trigger] chosen@[j] < available@.len(),
        decreases cn - c,
    {
        let idx = chosen[c];
        let skill = &available[idx];
        let md = crate::paths::join(skill.path.as_str(), "SKILL.md");
        let content = match fs.read_file(md.as_str()) {
            Some(text) => text,
            None => {
                return Err(SoukError::Io(md));
            },
        };
        let prompt = build_skill_review_prompt(skill.display_name.as_str(), content.as_str());
        let review_text = match provider.complete(prompt.as_str()) {
            Ok(t) => t,
            Err(e) => {
                return Err(e);
            },
        };
        let report = SkillReviewReport {
            skill_name: skill.display_name.clone(),
            skill_dir: skill.dir_name.clone(),
            provider_name: provider.name().to_owned(),
            model_name: provider.model().to_owned(),
            review_text: review_text.clone(),
        };
        match output_dir {
            Some(dir) => {
                fs.mkdir(dir);
                let mut file = skill.dir_name.clone();
                file.append("-skill-review.md");
                let path = crate::paths::join(dir, file.as_str());
                let mut out = "# Skill Review: ".to_owned();
                out.append(skill.display_name.as_str());
                out.append("\n\n**Provider:** ");
                out.append(report.provider_name.as_str());
                out.append(" (");
                out.append(report.model_name.as_str());
                out.append(")\n\n---\n\n");
                out.append(review_text.as_str());
                out.append("\n");
                fs.write_file(path.as_str(), out);
            },
            None => {},
        }
        reports.push(report);
        c += 1;
    }
    Ok(reports)
}

} // verus!

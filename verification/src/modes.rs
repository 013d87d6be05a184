//! Agent modes: the built-in mode set and lookup by slug, with custom
//! modes taking precedence.

use vstd::prelude::*;

verus! {

/// A mode's identifier.
pub type Mode = String;

/// One mode: its slug, display name, role text, and optional extra
/// instructions.
#[derive(Debug)]
pub struct ModeConfig {
    pub slug: String,
    pub name: String,
    pub role_definition: String,
    pub custom_instructions: Option<String>,
}

impl ModeConfig {
    /// A field-for-field copy.
    pub fn duplicate(&self) -> (r: ModeConfig)
        ensures
            r == *self,
    {
        ModeConfig {
            slug: self.slug.clone(),
            name: self.name.clone(),
            role_definition: self.role_definition.clone(),
            custom_instructions: match &self.custom_instructions {
                Some(s) => Some(s.clone()),
                None => None,
            },
        }
    }
}

/// Mode-specific prompt overrides.
#[derive(Debug)]
pub struct PromptComponent {
    pub role_definition: Option<String>,
    pub custom_instructions: Option<String>,
}

/// The position of the first mode with the slug, or -1.
pub open spec fn slug_index(ms: Seq<ModeConfig>, slug: Seq<char>) -> int
    decreases ms.len(),
{
    if ms.len() == 0 {
        -1
    } else if ms[0].slug@ == slug {
        0
    } else {
        let r = slug_index(ms.drop_first(), slug);
        if r == -1 {
            -1
        } else {
            r + 1
        }
    }
}

pub proof fn lemma_slug_index(ms: Seq<ModeConfig>, slug: Seq<char>)
    ensures
        slug_index(ms, slug) == -1 ==> forall|j: int| 0 <= j < ms.len() ==> (#[trigger] ms[j]).slug@
            != slug,
        slug_index(ms, slug) != -1 ==> 0 <= slug_index(ms, slug) < ms.len() && ms[slug_index(
            ms,
            slug,
        )].slug@ == slug && forall|j: int|
            0 <= j < slug_index(ms, slug) ==> (#[trigger] ms[j]).slug@ != slug,
    decreases ms.len(),
{
    if ms.len() > 0 && ms[0].slug@ != slug {
        lemma_slug_index(ms.drop_first(), slug);
        let d = ms.drop_first();
        assert(forall|j: int| 0 <= j < d.len() ==> #[trigger] d[j] == ms[j + 1]);
        if slug_index(ms, slug) == -1 {
            assert forall|j: int| 0 <= j < ms.len() implies (#[trigger] ms[j]).slug@ != slug by {
                if j > 0 {
                    assert(d[j - 1] == ms[j]);
                }
            }
        } else {
            assert(ms[slug_index(ms, slug)] == d[slug_index(d, slug)]);
            assert forall|j: int| 0 <= j < slug_index(ms, slug) implies (#[trigger] ms[j]).slug@
                != slug by {
                if j > 0 {
                    assert(d[j - 1] == ms[j]);
                }
            }
        }
    }
}

/// The default mode's slug.
pub fn default_mode_slug() -> (r: String)
    ensures
        r@ == "code"@,
{
    String::from_str("code")
}

/// The built-in modes, in order: code, architect, security.
pub fn builtin_modes() -> (r: Vec<ModeConfig>)
    ensures
        r@.len() == 3,
        r@[0].slug@ == "code"@ && r@[0].name@ == "Code"@ && r@[0].role_definition@
            == "A general-purpose coding assistant"@ && r@[0].custom_instructions is None,
        r@[1].slug@ == "architect"@ && r@[1].name@ == "Architect"@ && r@[1].role_definition@
            == "A software architect focused on high-level design"@
            && r@[1].custom_instructions is None,
        r@[2].slug@ == "security"@ && r@[2].name@ == "Security"@ && r@[2].role_definition@
            == "A security expert focused on identifying and fixing vulnerabilities"@
            && r@[2].custom_instructions is None,
{
    let mut out: Vec<ModeConfig> = Vec::new();
    out.push(
        ModeConfig {
            slug: String::from_str("code"),
            name: String::from_str("Code"),
            role_definition: String::from_str("A general-purpose coding assistant"),
            custom_instructions: None,
        },
    );
    out.push(
        ModeConfig {
            slug: String::from_str("architect"),
            name: String::from_str("Architect"),
            role_definition: String::from_str("A software architect focused on high-level design"),
            custom_instructions: None,
        },
    );
    out.push(
        ModeConfig {
            slug: String::from_str("security"),
            name: String::from_str("Security"),
            role_definition: String::from_str(
                "A security expert focused on identifying and fixing vulnerabilities",
            ),
            custom_instructions: None,
        },
    );
    out
}

/// The mode a slug names: the first matching custom mode when custom modes
/// were given, otherwise the matching built-in mode.
pub fn get_mode_by_slug(mode: Mode, custom_modes: Option<&Vec<ModeConfig>>) -> (r: Option<
    ModeConfig,
>)
    ensures
        match custom_modes {
            Some(cm) => slug_index(cm@, mode@) != -1 ==> (r is Some && r->0 == cm@[slug_index(
                cm@,
                mode@,
            )]),
            None => true,
        },
        (match custom_modes {
            Some(cm) => slug_index(cm@, mode@) == -1,
            None => true,
        }) ==> match r {
            Some(m) => m.slug@ == mode@ && m.custom_instructions is None && ((mode@ == "code"@
                && m.name@ == "Code"@ && m.role_definition@
                == "A general-purpose coding assistant"@) || (mode@ == "architect"@ && m.name@
                == "Architect"@ && m.role_definition@
                == "A software architect focused on high-level design"@) || (mode@ == "security"@
                && m.name@ == "Security"@ && m.role_definition@
                == "A security expert focused on identifying and fixing vulnerabilities"@)),
            None => mode@ != "code"@ && mode@ != "architect"@ && mode@ != "security"@,
        },
{
    match custom_modes {
        Some(cm) => {
            let ghost cs = cm@;
            proof {
                lemma_slug_index(cs, mode@);
            }
            let mut i: usize = 0;
            while i < cm.len()
                invariant
                    0 <= i <= cm@.len(),
                    cm@ == cs,
                    custom_modes == Some(cm),
                    forall|j: int| 0 <= j < i ==> (#[trigger] cs[j]).slug@ != mode@,
                decreases cm@.len() - i,
            {
                if cm[i].slug.eq(&mode) {
                    proof {
                        assert(slug_index(cs, mode@) == i) by {
                            lemma_slug_index(cs, mode@);
                            if slug_index(cs, mode@) == -1 {
                                assert(cs[i as int].slug@ != mode@);
                            }
                            if slug_index(cs, mode@) != -1 && slug_index(cs, mode@) < i {
                                assert(cs[slug_index(cs, mode@)].slug@ != mode@);
                            }
                            if slug_index(cs, mode@) != -1 && slug_index(cs, mode@) > i {
                                assert(cs[i as int].slug@ != mode@);
                            }
                        }
                    }
                    let m = cm[i].duplicate();
                    proof {
                        assert(m == cs[i as int]);
                        assert(cm@ == cs);
                        assert(slug_index(cm@, mode@) == i);
                        assert(m == cm@[slug_index(cm@, mode@)]);
                    }
                    return Some(m);
                }
                i = i + 1;
            }
            proof {
                assert(slug_index(cs, mode@) == -1) by {
                    lemma_slug_index(cs, mode@);
                    if slug_index(cs, mode@) != -1 {
                        assert(cs[slug_index(cs, mode@)].slug@ != mode@);
                    }
                }
            }
            builtin_by_slug(&mode)
        },
        None => builtin_by_slug(&mode),
    }
}

fn builtin_by_slug(mode: &String) -> (r: Option<ModeConfig>)
    ensures
        match r {
            Some(m) => m.slug@ == mode@ && m.custom_instructions is None && ((mode@ == "code"@
                && m.name@ == "Code"@ && m.role_definition@
                == "A general-purpose coding assistant"@) || (mode@ == "architect"@ && m.name@
                == "Architect"@ && m.role_definition@
                == "A software architect focused on high-level design"@) || (mode@ == "security"@
                && m.name@ == "Security"@ && m.role_definition@
                == "A security expert focused on identifying and fixing vulnerabilities"@)),
            None => mode@ != "code"@ && mode@ != "architect"@ && mode@ != "security"@,
        },
{
    let builtins = builtin_modes();
    let mut i: usize = 0;
    while i < builtins.len()
        invariant
            0 <= i <= builtins@.len(),
            builtins@.len() == 3,
            builtins@[0].slug@ == "code"@ && builtins@[0].name@ == "Code"@
                && builtins@[0].role_definition@ == "A general-purpose coding assistant"@
                && builtins@[0].custom_instructions is None,
            builtins@[1].slug@ == "architect"@ && builtins@[1].name@ == "Architect"@
                && builtins@[1].role_definition@
                == "A software architect focused on high-level design"@
                && builtins@[1].custom_instructions is None,
            builtins@[2].slug@ == "security"@ && builtins@[2].name@ == "Security"@
                && builtins@[2].role_definition@
                == "A security expert focused on identifying and fixing vulnerabilities"@
                && builtins@[2].custom_instructions is None,
            forall|j: int| 0 <= j < i ==> (#[trigger] builtins@[j]).slug@ != mode@,
        decreases builtins@.len() - i,
    {
        if builtins[i].slug.eq(mode) {
            return Some(builtins[i].duplicate());
        }
        i = i + 1;
    }
    None
}

/// The role text of the mode a slug names, or nothing when no mode
/// carries the slug.
pub fn get_role_definition(mode: &str, custom_modes: Option<&Vec<ModeConfig>>) -> (r: String)
    ensures
        (match custom_modes {
            Some(cm) => slug_index(cm@, mode@) == -1,
            None => true,
        } && mode@ != "code"@ && mode@ != "architect"@ && mode@ != "security"@) ==> r@
            == Seq::<char>::empty(),
        (match custom_modes {
            Some(cm) => slug_index(cm@, mode@) != -1 && r@ == cm@[slug_index(
                cm@,
                mode@,
            )].role_definition@,
            None => false,
        }) || (match custom_modes {
            Some(cm) => slug_index(cm@, mode@) == -1,
            None => true,
        } && ((mode@ == "code"@ && r@ == "A general-purpose coding assistant"@) || (mode@
            == "architect"@ && r@ == "A software architect focused on high-level design"@) || (
        mode@ == "security"@ && r@
            == "A security expert focused on identifying and fixing vulnerabilities"@) || r@
            == Seq::<char>::empty())),
{
    let m = String::from_str(mode);
    match get_mode_by_slug(m, custom_modes) {
        Some(cfg) => cfg.role_definition,
        None => String::new(),
    }
}

} // verus!

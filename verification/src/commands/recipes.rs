//! `/recipes`: lists the crafting recipes of a job, in detail when one
//! matches.

use vstd::prelude::*;
use crate::api::{Item, Recipe};
use crate::commands::bestiary::Attachment;
use crate::commands::player::plain_colour;
use crate::embed::{bare_embed, field_text, with_field, Embed, EmbedText};
use crate::text::{decimal, push_decimal, push_unsigned};
use crate::util::{
    base64_decoded, bytes_view, decode_image, image_payload, prettified, prettify_id, rarity_color,
    rarity_named, rarity_rgb, text_or_empty,
};

verus! {

/// The crafting jobs of Minebox.
#[derive(Clone, Copy, Debug, PartialEq, Eq, Structural)]
pub enum Job {
    Miner,
    Blacksmith,
    Jeweler,
    Runeforger,
    Alchemist,
    Farmer,
    Cook,
    Fisherman,
    Lumberjack,
    Hunter,
    Shoemaker,
    Tailor,
    Tinkerer,
}

/// The name of a job in the API (upper case).
pub open spec fn job_api_name(j: Job) -> Seq<char> {
    match j {
        Job::Miner => "MINER"@,
        Job::Blacksmith => "BLACKSMITH"@,
        Job::Jeweler => "JEWELER"@,
        Job::Runeforger => "RUNEFORGER"@,
        Job::Alchemist => "ALCHEMIST"@,
        Job::Farmer => "FARMER"@,
        Job::Cook => "COOK"@,
        Job::Fisherman => "FISHERMAN"@,
        Job::Lumberjack => "LUMBERJACK"@,
        Job::Hunter => "HUNTER"@,
        Job::Shoemaker => "SHOEMAKER"@,
        Job::Tailor => "TAILOR"@,
        Job::Tinkerer => "TINKERER"@,
    }
}

/// The French name of a job, as users choose it.
pub open spec fn job_display_name(j: Job) -> Seq<char> {
    match j {
        Job::Miner => "Mineur"@,
        Job::Blacksmith => "Forgeron"@,
        Job::Jeweler => "Bijoutier"@,
        Job::Runeforger => "Forgeruneur"@,
        Job::Alchemist => "Alchimiste"@,
        Job::Farmer => "Fermier"@,
        Job::Cook => "Cuisinier"@,
        Job::Fisherman => "Pêcheur"@,
        Job::Lumberjack => "Bûcheron"@,
        Job::Hunter => "Chasseur"@,
        Job::Shoemaker => "Cordonnier"@,
        Job::Tailor => "Tailleur"@,
        Job::Tinkerer => "Bricoleur"@,
    }
}

impl Job {
    /// The job's name in the API.
    pub fn api(&self) -> (s: &'static str)
        ensures
            s@ == job_api_name(*self),
    {
        match self {
            Job::Miner => "MINER",
            Job::Blacksmith => "BLACKSMITH",
            Job::Jeweler => "JEWELER",
            Job::Runeforger => "RUNEFORGER",
            Job::Alchemist => "ALCHEMIST",
            Job::Farmer => "FARMER",
            Job::Cook => "COOK",
            Job::Fisherman => "FISHERMAN",
            Job::Lumberjack => "LUMBERJACK",
            Job::Hunter => "HUNTER",
            Job::Shoemaker => "SHOEMAKER",
            Job::Tailor => "TAILOR",
            Job::Tinkerer => "TINKERER",
        }
    }

    /// The job's French name.
    pub fn display_name(&self) -> (s: &'static str)
        ensures
            s@ == job_display_name(*self),
    {
        match self {
            Job::Miner => "Mineur",
            Job::Blacksmith => "Forgeron",
            Job::Jeweler => "Bijoutier",
            Job::Runeforger => "Forgeruneur",
            Job::Alchemist => "Alchimiste",
            Job::Farmer => "Fermier",
            Job::Cook => "Cuisinier",
            Job::Fisherman => "Pêcheur",
            Job::Lumberjack => "Bûcheron",
            Job::Hunter => "Chasseur",
            Job::Shoemaker => "Cordonnier",
            Job::Tailor => "Tailleur",
            Job::Tinkerer => "Bricoleur",
        }
    }
}

/// How the recipes found are shown.
#[derive(Clone, Copy, Debug, PartialEq, Eq, Structural)]
pub enum RecipesShown {
    /// No recipe matches.
    NoMatch,
    /// Exactly one: its detail.
    Detail,
    /// Several: a list.
    List,
}

/// Chooses how to show `count` recipes.
pub fn recipes_shown(count: usize) -> (r: RecipesShown)
    ensures
        count == 0 ==> r == RecipesShown::NoMatch,
        count == 1 ==> r == RecipesShown::Detail,
        count > 1 ==> r == RecipesShown::List,
{
    if count == 0 {
        RecipesShown::NoMatch
    } else if count == 1 {
        RecipesShown::Detail
    } else {
        RecipesShown::List
    }
}

/// The reply when no recipe matches.
pub fn no_recipe() -> (s: String)
    ensures
        s@ == "Aucune recette ne correspond."@,
{
    String::from_str("Aucune recette ne correspond.")
}

/// The reply when the recipes cannot be fetched.
pub open spec fn recipes_failed_text(reason: Seq<char>) -> Seq<char> {
    "Impossible de récupérer les recettes ("@ + reason + ")."@
}

/// Builds the reply when the recipes cannot be fetched.
pub fn recipes_failed(reason: &str) -> (s: String)
    ensures
        s@ == recipes_failed_text(reason@),
{
    let mut s = String::from_str("Impossible de récupérer les recettes (");
    s.append(reason);
    s.append(").");
    s
}

/// The line of a recipe in a list: name and number of ingredients.
pub open spec fn recipe_line(r: Recipe) -> Seq<char> {
    "• **"@ + r.name@ + "** ("@ + decimal(r.ingredients@.len() as int) + " ingrédients)\n"@
}

/// The lines of the first `k` recipes.
pub open spec fn recipe_lines(rs: Seq<Recipe>) -> Seq<char>
    decreases rs.len(),
{
    if rs.len() == 0 {
        Seq::empty()
    } else {
        recipe_lines(rs.drop_last()) + recipe_line(rs.last())
    }
}

/// The list of recipes: the first 25, how many more there are, and a hint.
pub open spec fn recipe_list_text(rs: Seq<Recipe>) -> Seq<char> {
    let shown = if rs.len() <= 25 { rs } else { rs.take(25) };
    let more = if rs.len() > 25 {
        "…et "@ + decimal(rs.len() - 25) + " autres.\n"@
    } else {
        Seq::empty()
    };
    recipe_lines(shown) + more + "\n*Affinez avec `search:` pour voir le détail d'une recette.*"@
}

/// The embed listing several recipes of a job.
pub open spec fn recipe_list_embed(job_name: Seq<char>, rs: Seq<Recipe>) -> EmbedText {
    EmbedText {
        description: Some(recipe_list_text(rs)),
        ..bare_embed(
            "🛠️ Recettes — "@ + job_name + " ("@ + decimal(rs.len() as int) + ")"@,
            plain_colour(),
        )
    }
}

/// Builds the compact list shown when several recipes match.
pub fn recipe_list(job_name: &str, rs: &Vec<Recipe>) -> (e: Embed)
    ensures
        e@ == recipe_list_embed(job_name@, rs@),
{
    let n: usize = if rs.len() <= 25 { rs.len() } else { 25 };
    let mut lines = String::new();
    let mut i: usize = 0;
    while i < n
        invariant
            i <= n <= rs@.len(),
            lines@ == recipe_lines(rs@.take(i as int)),
        decreases n - i,
    {
        lines.append("• **");
        lines.append(rs[i].name.as_str());
        lines.append("** (");
        push_unsigned(&mut lines, rs[i].ingredients.len() as u64);
        lines.append(" ingrédients)\n");
        i = i + 1;
        assert(rs@.take(i as int).drop_last() =~= rs@.take(i - 1));
    }
    proof {
        let shown = if rs@.len() <= 25 { rs@ } else { rs@.take(25) };
        assert(shown =~= rs@.take(n as int));
    }
    if rs.len() > 25 {
        lines.append("…et ");
        push_unsigned(&mut lines, (rs.len() - 25) as u64);
        lines.append(" autres.\n");
    }
    lines.append("\n*Affinez avec `search:` pour voir le détail d'une recette.*");
    assert(lines@ =~= recipe_list_text(rs@));
    let mut title = String::from_str("🛠️ Recettes — ");
    title.append(job_name);
    title.append(" (");
    push_unsigned(&mut title, rs.len() as u64);
    title.append(")");
    let mut e = Embed::new(title, 0x5865F2);
    e.set_description(lines);
    e
}

/// The id of the item a recipe produces: its output, else its own id.
pub open spec fn output_id_text(r: Recipe) -> Seq<char> {
    match r.output {
        Some(o) => o@,
        None => r.id@,
    }
}

/// The id of the item a recipe produces.
pub fn output_id(r: &Recipe) -> (s: String)
    ensures
        s@ == output_id_text(*r),
{
    match &r.output {
        Some(o) => o.clone(),
        None => r.id.clone(),
    }
}

/// The readable name of an item: the name the API gives, else the
/// prettified id.
pub open spec fn item_name_text(fetched: Option<Item>, id: Seq<char>) -> Seq<char> {
    match fetched {
        Some(i) => i.name@,
        None => prettified(id),
    }
}

/// Resolves the readable name of an item from what the API returned for it.
pub fn resolve_name(fetched: Option<&Item>, id: &str) -> (s: String)
    ensures
        s@ == item_name_text(match fetched { Some(i) => Some(*i), None => None }, id@),
{
    match fetched {
        Some(i) => i.name.clone(),
        None => prettify_id(id),
    }
}

/// The ingredient lines of a recipe with the resolved names.
pub open spec fn ingredient_lines(r: Recipe, names: Seq<Seq<char>>, k: int) -> Seq<char>
    decreases k,
{
    if k <= 0 {
        Seq::empty()
    } else {
        ingredient_lines(r, names, k - 1) + "• **"@ + names[k - 1] + "** ×"@ + decimal(
            r.ingredients@[k - 1].amount as int,
        ) + "\n"@
    }
}

/// The rarity name of an optional item (empty when unknown).
pub open spec fn item_rarity(output: Option<Item>) -> Seq<char> {
    match output {
        Some(i) => match i.rarity {
            Some(r) => r@,
            None => Seq::empty(),
        },
        None => Seq::empty(),
    }
}

/// The decoded image of the produced item, if it has one that decodes.
pub open spec fn output_image(output: Option<Item>) -> Option<Seq<u8>> {
    match output {
        Some(i) => match i.image {
            Some(img) => base64_decoded(image_payload(img@)),
            None => None,
        },
        None => None,
    }
}

/// The detail embed of a recipe: ingredients (with resolved names), amount
/// produced, job, and the produced item's rarity colour and image.
pub open spec fn recipe_detail_embed(r: Recipe, output: Option<Item>, names: Seq<Seq<char>>) -> EmbedText {
    let lines = ingredient_lines(r, names, r.ingredients@.len() as int);
    let ing = if lines.len() > 0 { lines } else { "*Aucun ingrédient.*"@ };
    let e0 = bare_embed("🛠️ "@ + r.name@, rarity_rgb(rarity_named(item_rarity(output))));
    let e1 = with_field(e0, field_text("Ingrédients"@, ing, false));
    let produced = if r.amount > 1 { "×"@ + decimal(r.amount as int) } else { "×1"@ };
    let e2 = with_field(e1, field_text("Produit"@, produced, true));
    let e3 = match r.job {
        Some(j) => with_field(e2, field_text("Métier"@, j@, true)),
        None => e2,
    };
    if output_image(output) is Some {
        EmbedText { thumbnail: Some("attachment://output.png"@), ..e3 }
    } else {
        e3
    }
}

/// The detail of one recipe and the produced item's image to attach.
pub struct RecipeDetail {
    pub embed: Embed,
    pub image: Option<Attachment>,
}

/// Builds the detail of a recipe from the produced item (when the API knows
/// it) and the resolved names of its ingredients.
pub fn recipe_detail(r: &Recipe, output: Option<&Item>, names: &Vec<String>) -> (d: RecipeDetail)
    requires
        names@.len() == r.ingredients@.len(),
    ensures
        d.embed@ == recipe_detail_embed(
            *r,
            match output { Some(i) => Some(*i), None => None },
            crate::text::views(names@),
        ),
        match output_image(match output { Some(i) => Some(*i), None => None }) {
            Some(b) => d.image matches Some(a) && a.filename@ == "output.png"@ && a.bytes@ == b,
            None => d.image is None,
        },
{
    let ghost out = match output { Some(i) => Some(*i), None => None };
    let ghost ns = crate::text::views(names@);
    let mut lines = String::new();
    let mut i: usize = 0;
    while i < r.ingredients.len()
        invariant
            i <= r.ingredients@.len(),
            names@.len() == r.ingredients@.len(),
            ns == crate::text::views(names@),
            lines@ == ingredient_lines(*r, ns, i as int),
        decreases r.ingredients.len() - i,
    {
        lines.append("• **");
        lines.append(names[i].as_str());
        lines.append("** ×");
        push_decimal(&mut lines, r.ingredients[i].amount);
        lines.append("\n");
        i = i + 1;
    }
    if lines.as_str().is_empty() {
        lines.append("*Aucun ingrédient.*");
    }
    let rarity: Option<&str> = match output {
        Some(it) => match &it.rarity {
            Some(t) => Some(t.as_str()),
            None => None,
        },
        None => None,
    };
    assert(text_or_empty(rarity) == item_rarity(out));
    let mut title = String::from_str("🛠️ ");
    title.append(r.name.as_str());
    let mut e = Embed::new(title, rarity_color(rarity));
    e.add_field(String::from_str("Ingrédients"), lines, false);
    let produced = if r.amount > 1 {
        let mut p = String::from_str("×");
        push_decimal(&mut p, r.amount);
        p
    } else {
        String::from_str("×1")
    };
    e.add_field(String::from_str("Produit"), produced, true);
    match &r.job {
        Some(j) => e.add_field(String::from_str("Métier"), j.clone(), true),
        None => {},
    }
    let bytes = match output {
        Some(it) => match &it.image {
            Some(img) => decode_image(img.as_str()),
            None => None,
        },
        None => None,
    };
    assert(bytes_view(bytes) == output_image(out));
    let image = match bytes {
        Some(b) => {
            e.set_thumbnail(String::from_str("attachment://output.png"));
            Some(Attachment { filename: String::from_str("output.png"), bytes: b })
        },
        None => None,
    };
    RecipeDetail { embed: e, image }
}

} // verus!

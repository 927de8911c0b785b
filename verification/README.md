# TapCode

TapCode teaches programming languages on a phone: the learner builds code by
tapping token chips instead of typing. Rust is the first language pack.

The logic of the app is a library verified with Verus; the app around it is
ordinary Rust.

## Layout

- `src/` — the verified library.
  - `models.rs` — language packs, challenges, progress, hint tiers.
  - `rust_pack.rs` — the embedded Rust pack.
  - `engine.rs` — pack registry, answer checking with a token diff,
    contextual chip highlighting, module and challenge lookups.
  - `validator.rs` — compiler adapters and the static check of every
    challenge's answers.
  - `state.rs` — the app state: XP, streak, unlocking, hints, paywall.
  - `lesson.rs` — one lesson in progress and what each user action does.
  - `compose.rs` — Free Compose: the chips offered and the canvas.
  - `onboarding.rs` — the first-run flow and the lesson it starts on.
  - `views.rs` — what the home, module, completion and profile screens show.
  - `component_logic/` — canvas indentation, keyboard shortcuts, picker.
  - `services/` — offline queue and conflict rules, Supabase requests and
    responses, sync plans and merging, platform traits.
  - `text.rs` — string helpers with their specifications.
- `tests/` — tests of the library.
- `app/` — the Dioxus app: screens, HTTP, storage, JSON (de)serialisation.

Every public function of `src/` states its result in its contract, and the
laws of the library (for instance that undo takes back a tap, that the queue
is first in, first out, or that a purchase hides the paywall) are proof
functions named `law_*`.

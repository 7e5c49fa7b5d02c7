# passwordkit

Checks passwords against a policy of length and character-class rules, and
generates random passwords with per-class minimums.

- `src/check.rs`: `Requirement`, `PasswordPolicy`, `check`, with the model of
  what a check reports and the laws that relate it to the requirements.
- `src/generate.rs`: `Options`, `Error`, `generate`, `generate_from_draws`
  (the password that given draws select), the model of what every generated
  password satisfies, and the law tying generated passwords to `check`.
- `src/text.rs`: character-level helpers and the Unicode classes of `char`.
- `src/random.rs`: the random source (`rand`'s thread-local generator).
- `app/lib.rs`: a copy of `Requirement` that implements `Display`.

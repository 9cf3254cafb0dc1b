# vrcaster

The core of VRCaster, a desktop tool that encodes videos into a
VRChat-compatible format (H.264 main, no B-frames, yuv420p, faststart, AAC
stereo), uploads them to the user's server over SFTP, and hands back a URL
protected by an access key.

- `src/` is the library, verified with Verus: the ffmpeg command lines and
  filter chain, the reading of ffmpeg and ffprobe output, the ffmpeg error
  report, output names, subtitle handling, the nginx configuration and
  deployment steps, upload paths, URLs, the step of each upload round
  (resume, rewrite or done), `df` parsing, private-key text decoding, the
  profile and history lists (and the place of a preset in its list), and
  access-key generation.
- `app/` is the Tauri backend around it: files, the key ring, processes,
  SSH / SFTP, finding ffmpeg (system PATH first) or downloading it, the
  choice of the `outs/` directory beside the source, and the
  floating-point rates, estimates, presets and progress figures.
- `tests/` runs the library on concrete values.
